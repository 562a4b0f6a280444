//! Digests as text: the standard base64 encoding, from the `base64` crate.

use base64::prelude::BASE64_STANDARD;
use base64::Engine;
use vstd::prelude::*;

verus! {

/// The 64 characters of the standard base64 alphabet, by the 6-bit value
/// each stands for.
pub open spec fn base64_alphabet() -> Seq<char> {
    "ABCDEFGHIJKLMNOPQRSTUVWXYZabcdefghijklmnopqrstuvwxyz0123456789+/"@
}

/// The standard base64 encoding of `bytes`, with padding. Each group of
/// three bytes gives four characters, 6 bits each, highest bits first. A
/// rest of one byte gives two characters and `==`; a rest of two bytes
/// gives three characters and `=`.
pub open spec fn base64_text(bytes: Seq<u8>) -> Seq<char>
    decreases bytes.len(),
{
    let alphabet = base64_alphabet();
    if bytes.len() == 0 {
        Seq::empty()
    } else if bytes.len() == 1 {
        let b0 = bytes[0] as int;
        seq![alphabet[b0 / 4], alphabet[(b0 % 4) * 16], '=', '=']
    } else if bytes.len() == 2 {
        let b0 = bytes[0] as int;
        let b1 = bytes[1] as int;
        seq![alphabet[b0 / 4], alphabet[(b0 % 4) * 16 + b1 / 16], alphabet[(b1 % 16) * 4], '=']
    } else {
        let b0 = bytes[0] as int;
        let b1 = bytes[1] as int;
        let b2 = bytes[2] as int;
        seq![
            alphabet[b0 / 4],
            alphabet[(b0 % 4) * 16 + b1 / 16],
            alphabet[(b1 % 16) * 4 + b2 / 64],
            alphabet[b2 % 64],
        ] + base64_text(bytes.skip(3))
    }
}

/// Calls `base64::Engine::encode` on `base64::prelude::BASE64_STANDARD`.
/// Trusted: the result is the padded base64 encoding of the 32 bytes in
/// the standard alphabet.
#[verifier::external_body]
pub(crate) fn base64_standard(digest: &[u8; 32]) -> (text: String)
    ensures
        text@ == base64_text(digest@),
{
    BASE64_STANDARD.encode(digest)
}

} // verus!
