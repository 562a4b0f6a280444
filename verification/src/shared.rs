//! Digests as byte strings: the big-endian number a digest stands for, the
//! count of its leading zero bits (against which proof-of-work is judged),
//! and the fixed-width big-endian encoding of integers that digests are
//! computed over.

use core::time::Duration;
use std::time::{SystemTime, SystemTimeError, UNIX_EPOCH};
use vstd::arithmetic::power2::{
    lemma2_to64, lemma_pow2_adds, lemma_pow2_pos, lemma_pow2_strictly_increases, pow2,
};
use vstd::prelude::*;
use vstd::std_specs::bits::u64_leading_zeros;

verus! {

/// A 256-bit digest.
pub type Hash = [u8; 32];

/// The number that a byte string denotes when read big-endian.
pub open spec fn be_value(bytes: Seq<u8>) -> nat
    decreases bytes.len(),
{
    if bytes.len() == 0 {
        0
    } else {
        be_value(bytes.drop_last()) * 256 + bytes.last() as nat
    }
}

/// The number of binary digits of `n`, with `bit_length(0) == 0`.
pub open spec fn bit_length(n: nat) -> nat
    decreases n,
{
    if n == 0 {
        0
    } else {
        1 + bit_length(n / 2)
    }
}

/// How many zero bits stand before the first one bit of `bytes`, read from
/// its first byte and from each byte's highest bit; `8 * bytes.len()` when
/// every bit is zero.
pub open spec fn leading_zero_bits(bytes: Seq<u8>) -> int {
    8 * bytes.len() - bit_length(be_value(bytes))
}

/// The `width` bytes that denote `value % 256^width` big-endian.
pub open spec fn be_bytes(value: nat, width: nat) -> Seq<u8>
    decreases width,
{
    if width == 0 {
        Seq::empty()
    } else {
        be_bytes(value / 256, (width - 1) as nat).push((value % 256) as u8)
    }
}

/// Reading a concatenation: the first part is shifted left by the bits of
/// the second.
pub proof fn lemma_be_value_append(a: Seq<u8>, b: Seq<u8>)
    ensures
        be_value(a + b) == be_value(a) * pow2(8 * b.len()) + be_value(b),
    decreases b.len(),
{
    lemma2_to64();
    if b.len() == 0 {
        assert(a + b == a);
        assert(be_value(a) * 1 == be_value(a));
    } else {
        let shorter = b.drop_last();
        assert((a + b).drop_last() == a + shorter);
        lemma_be_value_append(a, shorter);
        lemma_pow2_adds(8 * shorter.len(), 8);
        let high = be_value(a);
        let scale = pow2(8 * shorter.len());
        assert(pow2(8 * b.len()) == scale * 256);
        assert((high * scale + be_value(shorter)) * 256 == high * (scale * 256) + be_value(shorter)
            * 256) by (nonlinear_arith);
    }
}

/// A byte string of `n` bytes denotes a number below `2^(8n)`.
pub proof fn lemma_be_value_bound(bytes: Seq<u8>)
    ensures
        be_value(bytes) < pow2(8 * bytes.len()),
    decreases bytes.len(),
{
    lemma2_to64();
    if bytes.len() > 0 {
        let shorter = bytes.drop_last();
        lemma_be_value_bound(shorter);
        lemma_pow2_adds(8 * shorter.len(), 8);
    }
}

/// Shifting a positive number left by `k` bits adds `k` to its bit length,
/// whatever fills the low bits.
pub proof fn lemma_bit_length_shift(high: nat, k: nat, low: nat)
    requires
        high > 0,
        low < pow2(k),
    ensures
        bit_length(high * pow2(k) + low) == k + bit_length(high),
    decreases k,
{
    lemma2_to64();
    if k == 0 {
        assert(high * 1 + low == high);
    } else {
        let half = pow2((k - 1) as nat);
        lemma_pow2_adds((k - 1) as nat, 1);
        lemma_pow2_pos((k - 1) as nat);
        let base = high * half;
        assert(high * (half * 2) == 2 * base) by (nonlinear_arith)
            requires
                base == high * half,
        ;
        assert(base >= half) by (nonlinear_arith)
            requires
                base == high * half,
                high >= 1,
                half >= 0,
        ;
        let whole = high * pow2(k) + low;
        assert(whole == 2 * base + low);
        assert(whole / 2 == base + low / 2);
        lemma_bit_length_shift(high, (k - 1) as nat, low / 2);
    }
}

/// A number has at most `bits` binary digits exactly when it is below
/// `2^bits`.
pub proof fn lemma_bit_length_bound(n: nat, bits: nat)
    ensures
        bit_length(n) <= bits <==> n < pow2(bits),
    decreases bits,
{
    lemma2_to64();
    if bits == 0 {
    } else if n == 0 {
        lemma_pow2_pos(bits);
    } else {
        lemma_pow2_adds((bits - 1) as nat, 1);
        lemma_bit_length_bound(n / 2, (bits - 1) as nat);
    }
}

/// A byte string has at least `zeros` leading zero bits exactly when the
/// number it denotes is below `2^(8 * len - zeros)`: the more zeros are
/// asked for, the lower the bound.
pub proof fn lemma_leading_zero_bits_bound(bytes: Seq<u8>, zeros: nat)
    requires
        zeros <= 8 * bytes.len(),
    ensures
        leading_zero_bits(bytes) >= zeros <==> be_value(bytes) < pow2(
            (8 * bytes.len() - zeros) as nat,
        ),
        0 <= leading_zero_bits(bytes) <= 8 * bytes.len(),
{
    lemma_bit_length_bound(be_value(bytes), (8 * bytes.len() - zeros) as nat);
    lemma_bit_length_bound(be_value(bytes), 8 * bytes.len());
    lemma_be_value_bound(bytes);
}

/// The encoding has `width` bytes and denotes `value`, cut down to what
/// `width` bytes can hold.
pub proof fn lemma_be_bytes_value(value: nat, width: nat)
    ensures
        be_bytes(value, width).len() == width,
        be_value(be_bytes(value, width)) == value % pow2(8 * width),
    decreases width,
{
    lemma2_to64();
    if width > 0 {
        let shorter = (width - 1) as nat;
        lemma_be_bytes_value(value / 256, shorter);
        lemma_pow2_adds(8 * shorter, 8);
        lemma_pow2_pos(8 * shorter);
        let scale = pow2(8 * shorter);
        assert(be_bytes(value, width).drop_last() == be_bytes(value / 256, shorter));
        assert(pow2(8 * width) == scale * 256);
        vstd::arithmetic::div_mod::lemma_breakdown(value as int, 256, scale as int);
        assert(value % (scale * 256) == ((value / 256) % scale) * 256 + value % 256);
    }
}

/// The leading zeros of a 64-bit word are the bits it does not need.
pub proof fn lemma_u64_leading_zeros(word: u64)
    ensures
        u64_leading_zeros(word) == 64 - bit_length(word as nat),
    decreases word,
{
    reveal(u64_leading_zeros);
    if word != 0 {
        lemma_u64_leading_zeros(word / 2);
    }
}

/// `std::time::SystemTime`: a reading of the system clock.
#[verifier::external_type_specification]
#[verifier::external_body]
pub struct ExSystemTime(SystemTime);

/// `std::time::SystemTimeError`: what `duration_since` gives when the
/// earlier time is the later one.
#[verifier::external_type_specification]
#[verifier::external_body]
pub struct ExSystemTimeError(SystemTimeError);

/// `std::time::SystemTime::now` reads the clock. Nothing is claimed of the
/// reading.
pub assume_specification[ SystemTime::now ]() -> (now: SystemTime);

/// `std::time::SystemTime::duration_since` gives the time elapsed since
/// `earlier`, or an error. Nothing is claimed of either.
pub assume_specification[ SystemTime::duration_since ](
    time: &SystemTime,
    earlier: SystemTime,
) -> (elapsed: Result<Duration, SystemTimeError>);

/// `core::time::Duration::as_secs` gives the whole seconds of a duration.
/// Nothing is claimed of their number.
pub assume_specification[ Duration::as_secs ](duration: &Duration) -> (seconds: u64);

/// The constant `std::time::UNIX_EPOCH`.
#[verifier::external_body]
fn unix_epoch() -> SystemTime {
    UNIX_EPOCH
}

/// Current time in whole seconds since the Unix epoch. Nothing is promised
/// of the value; a clock set before the epoch reads as 0.
pub fn get_now_unix() -> u64 {
    match SystemTime::now().duration_since(unix_epoch()) {
        Ok(elapsed) => elapsed.as_secs(),
        Err(_) => 0,
    }
}

/// The big-endian 64-bit word held in `hash[start..start + 8]`.
fn be_word(hash: &[u8; 32], start: usize) -> (word: u64)
    requires
        start + 8 <= 32,
    ensures
        word == be_value(hash@.subrange(start as int, start + 8)),
{
    let mut word: u64 = 0;
    let mut taken: usize = 0;
    proof {
        lemma2_to64();
    }
    while taken < 8
        invariant
            taken <= 8,
            start + 8 <= 32,
            word == be_value(hash@.subrange(start as int, start + taken)),
            word < pow2(8 * taken as nat),
        decreases 8 - taken,
    {
        let byte = hash[start + taken];
        proof {
            let before = hash@.subrange(start as int, start + taken);
            let after = hash@.subrange(start as int, start + taken + 1);
            assert(after.drop_last() == before);
            lemma2_to64();
            lemma_pow2_adds(8 * taken as nat, 8);
            if 8 * taken + 8 < 64 {
                lemma_pow2_strictly_increases((8 * taken + 8) as nat, 64);
            }
        }
        word = word * 256 + byte as u64;
        taken += 1;
    }
    word
}

/// Counts the leading zero bits of a digest: the 32 bytes are read as four
/// big-endian 64-bit words in order; each zero word counts 64, and the first
/// non-zero word adds its own leading zeros and ends the count.
pub fn count_leading_zeros(hash: &[u8; 32]) -> (count: u32)
    ensures
        count == leading_zero_bits(hash@),
{
    let mut count: u32 = 0;
    let mut words: usize = 0;
    while words < 4
        invariant
            words <= 4,
            count == 64 * words,
            be_value(hash@.take(8 * words)) == 0,
        decreases 4 - words,
    {
        let word = be_word(hash, 8 * words);
        proof {
            let head = hash@.take(8 * words);
            let chunk = hash@.subrange(8 * words, 8 * words + 8);
            let tail = hash@.skip(8 * words + 8);
            assert(hash@.take(8 * words + 8) == head + chunk);
            assert(hash@ == (head + chunk) + tail);
            lemma_be_value_append(head, chunk);
            lemma_be_value_append(head + chunk, tail);
            lemma_be_value_bound(tail);
            if word != 0 {
                lemma_bit_length_shift(word as nat, 8 * tail.len(), be_value(tail));
                lemma_u64_leading_zeros(word);
            }
        }
        if word == 0 {
            count += 64;
        } else {
            count += word.leading_zeros();
            return count;
        }
        words += 1;
    }
    proof {
        assert(hash@.take(32) == hash@);
    }
    count
}

/// Whether a digest has at least `difficulty` leading zero bits.
pub fn meet_difficulty(hash: &[u8; 32], difficulty: u32) -> (met: bool)
    ensures
        met == (leading_zero_bits(hash@) >= difficulty),
{
    count_leading_zeros(hash) >= difficulty
}

/// Whether two byte arrays hold the same bytes.
pub fn bytes_eq<const N: usize>(a: &[u8; N], b: &[u8; N]) -> (same: bool)
    ensures
        same == (a@ == b@),
{
    let mut at: usize = 0;
    while at < N
        invariant
            at <= N,
            a@.take(at as int) == b@.take(at as int),
        decreases N - at,
    {
        if a[at] != b[at] {
            return false;
        }
        proof {
            assert(a@.take(at + 1) == a@.take(at as int).push(a@[at as int]));
            assert(b@.take(at + 1) == b@.take(at as int).push(b@[at as int]));
        }
        at += 1;
    }
    proof {
        assert(a@.take(N as int) == a@);
        assert(b@.take(N as int) == b@);
    }
    true
}

/// Appends the lowest `width` bytes of `value` to `buf`, most significant
/// first.
pub fn push_be(buf: &mut Vec<u8>, value: u64, width: usize)
    requires
        width <= 8,
    ensures
        final(buf)@ == old(buf)@ + be_bytes(value as nat, width as nat),
{
    let mut digits = [0u8; 8];
    let mut rest = value;
    let mut open: usize = width;
    while open > 0
        invariant
            open <= width <= 8,
            be_bytes(value as nat, width as nat) == be_bytes(rest as nat, open as nat)
                + digits@.subrange(open as int, width as int),
        decreases open,
    {
        let ghost before = digits@;
        open -= 1;
        digits[open] = (rest % 256) as u8;
        proof {
            assert(digits@.subrange(open as int, width as int) == seq![(rest % 256) as u8]
                + before.subrange(open + 1, width as int));
        }
        rest = rest / 256;
    }
    let mut done: usize = 0;
    while done < width
        invariant
            done <= width <= 8,
            buf@ == old(buf)@ + digits@.subrange(0, done as int),
        decreases width - done,
    {
        buf.push(digits[done]);
        proof {
            assert(digits@.subrange(0, done + 1) == digits@.subrange(0, done as int).push(
                digits@[done as int],
            ));
        }
        done += 1;
    }
}

} // verus!
