//! A payment: an amount and the key that may spend it.

use crate::keys::VerifyingKey;
use crate::shared::{be_bytes, push_be};
use vstd::prelude::*;

verus! {

/// An output as the model sees it.
pub struct OutputView {
    pub pubkey: Seq<u8>,
    pub amount: nat,
}

impl OutputView {
    /// The bytes an output contributes to its transaction's digest: the
    /// owner's key, then the amount as 8 bytes big-endian.
    pub open spec fn bytes(self) -> Seq<u8> {
        self.pubkey + be_bytes(self.amount, 8)
    }
}

/// The model's view of a run of outputs.
pub open spec fn output_views(outputs: Seq<Output>) -> Seq<OutputView> {
    Seq::new(outputs.len(), |at: int| outputs[at]@)
}

/// The bytes that a run of outputs contributes to a digest, in order.
pub open spec fn outputs_bytes(outputs: Seq<OutputView>) -> Seq<u8>
    decreases outputs.len(),
{
    if outputs.len() == 0 {
        Seq::empty()
    } else {
        outputs_bytes(outputs.drop_last()) + outputs.last().bytes()
    }
}

/// The sum of the amounts of a run of outputs.
pub open spec fn total_amount(outputs: Seq<OutputView>) -> nat
    decreases outputs.len(),
{
    if outputs.len() == 0 {
        0
    } else {
        total_amount(outputs.drop_last()) + outputs.last().amount
    }
}

/// An amount and the key of its owner.
#[derive(Clone, Copy, Debug)]
pub struct Output {
    pubkey: VerifyingKey,
    amount: u64,
}

impl View for Output {
    type V = OutputView;

    closed spec fn view(&self) -> OutputView {
        OutputView { pubkey: self.pubkey@, amount: self.amount as nat }
    }
}

impl Output {
    pub fn new(pubkey: VerifyingKey, amount: u64) -> (output: Self)
        ensures
            output@ == (OutputView { pubkey: pubkey@, amount: amount as nat }),
    {
        Output { pubkey, amount }
    }

    pub fn get_pubkey(&self) -> (pubkey: &VerifyingKey)
        ensures
            pubkey@ == self@.pubkey,
    {
        &self.pubkey
    }

    pub fn get_amount(&self) -> (amount: u64)
        ensures
            amount == self@.amount,
    {
        self.amount
    }

    /// Appends this output's bytes to the input of a digest.
    pub fn add_to_hash(&self, hasher: &mut Vec<u8>)
        ensures
            final(hasher)@ == old(hasher)@ + self@.bytes(),
    {
        hasher.extend_from_slice(self.pubkey.as_bytes().as_slice());
        push_be(hasher, self.amount, 8);
        assert(hasher@ == old(hasher)@ + (self.pubkey@ + be_bytes(self.amount as nat, 8)));
    }
}

} // verus!
