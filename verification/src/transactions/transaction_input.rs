//! A reference to an output of an earlier transaction.

use crate::shared;
use crate::shared::{be_bytes, bytes_eq, push_be};
use crate::transactions::transaction::SignedTransaction;
use vstd::prelude::*;

verus! {

/// An input as the model sees it: the digest of the transaction that made
/// the output, and the output's position in it.
pub struct InputView {
    pub tx_id: Seq<u8>,
    pub tx_output_idx: nat,
}

impl InputView {
    /// The bytes an input contributes to its transaction's digest: the
    /// origin digest, then the position as 8 bytes big-endian.
    pub open spec fn bytes(self) -> Seq<u8> {
        self.tx_id + be_bytes(self.tx_output_idx, 8)
    }
}

/// The model's view of a run of inputs.
pub open spec fn input_views(inputs: Seq<Input>) -> Seq<InputView> {
    Seq::new(inputs.len(), |at: int| inputs[at]@)
}

/// The bytes that a run of inputs contributes to a digest, in order.
pub open spec fn inputs_bytes(inputs: Seq<InputView>) -> Seq<u8>
    decreases inputs.len(),
{
    if inputs.len() == 0 {
        Seq::empty()
    } else {
        inputs_bytes(inputs.drop_last()) + inputs.last().bytes()
    }
}

/// A reference to the output at `tx_output_idx` of the transaction whose
/// digest is `tx_id`. Two inputs are equal when both fields are.
#[derive(Clone, Copy, Debug)]
pub struct Input {
    tx_id: shared::Hash,
    tx_output_idx: usize,
}

impl View for Input {
    type V = InputView;

    closed spec fn view(&self) -> InputView {
        InputView { tx_id: self.tx_id@, tx_output_idx: self.tx_output_idx as nat }
    }
}

impl Input {
    /// The input that spends output `tx_output_idx` of `transaction`.
    pub fn new(transaction: &SignedTransaction, tx_output_idx: usize) -> (input: Self)
        requires
            tx_output_idx < transaction@.raw.outputs.len(),
        ensures
            input@ == (InputView {
                tx_id: transaction@.hash,
                tx_output_idx: tx_output_idx as nat,
            }),
    {
        Input { tx_id: *transaction.get_hash(), tx_output_idx }
    }

    /// The input that refers to output `tx_output_idx` of the transaction
    /// with digest `tx_id`, whether or not there is such an output.
    pub fn from_parts(tx_id: shared::Hash, tx_output_idx: usize) -> (input: Self)
        ensures
            input@ == (InputView { tx_id: tx_id@, tx_output_idx: tx_output_idx as nat }),
    {
        Input { tx_id, tx_output_idx }
    }

    /// Appends this input's bytes to the input of a digest.
    pub fn add_to_hash(&self, hasher: &mut Vec<u8>)
        ensures
            final(hasher)@ == old(hasher)@ + self@.bytes(),
    {
        hasher.extend_from_slice(self.tx_id.as_slice());
        push_be(hasher, self.tx_output_idx as u64, 8);
        assert(hasher@ == old(hasher)@ + (self.tx_id@ + be_bytes(self.tx_output_idx as nat, 8)));
    }

    pub fn get_tx_id(&self) -> (tx_id: &shared::Hash)
        ensures
            tx_id@ == self@.tx_id,
    {
        &self.tx_id
    }

    pub fn get_tx_idx(&self) -> (tx_output_idx: usize)
        ensures
            tx_output_idx == self@.tx_output_idx,
    {
        self.tx_output_idx
    }
}

impl PartialEq for Input {
    fn eq(&self, other: &Self) -> (same: bool) {
        self.tx_output_idx == other.tx_output_idx && bytes_eq(&self.tx_id, &other.tx_id)
    }
}

impl vstd::std_specs::cmp::PartialEqSpecImpl for Input {
    open spec fn obeys_eq_spec() -> bool {
        true
    }

    open spec fn eq_spec(&self, other: &Self) -> bool {
        self@ == other@
    }
}

} // verus!
