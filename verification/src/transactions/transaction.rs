//! A transaction on its way from a bare statement of inputs and outputs,
//! through a signature, to one that has been checked against the unspent
//! outputs.

use crate::block_chain::{BlockChain, COIN_BASE_AMOUNT};
use crate::crypto::{
    ed25519_public_key, ed25519_signature, ed25519_verifies, sha256, sha256_digest,
};
use crate::keys::{Signature, SigningKey, VerifyingKey};
use crate::shared;
use crate::shared::bytes_eq;
use crate::transactions::transaction_input::{input_views, inputs_bytes, Input, InputView};
use crate::transactions::transaction_output::{
    output_views, outputs_bytes, total_amount, Output, OutputView,
};
use crate::utxo_map::{Ledger, UTXOMap};
use vstd::prelude::*;

verus! {

/// Why a transaction is refused.
#[derive(Clone, Copy, Debug, PartialEq, Eq, Structural)]
pub enum TransactionValidationError {
    SignatureIncorrect,
    HashIncorrect,
    InsufficientInput,
    InsufficientOutput,
    InputInvalid,
    UnauthorizedInput,
}

/// An unsigned transaction as the model sees it.
pub struct RawTransactionView {
    pub inputs: Seq<InputView>,
    pub outputs: Seq<OutputView>,
    pub pubkey: Seq<u8>,
}

impl RawTransactionView {
    /// The bytes the digest is taken over: the inputs in order, then the
    /// outputs in order, then the authorizing key.
    pub open spec fn bytes(self) -> Seq<u8> {
        inputs_bytes(self.inputs) + outputs_bytes(self.outputs) + self.pubkey
    }

    /// The transaction's digest.
    pub open spec fn digest(self) -> Seq<u8> {
        sha256(self.bytes())
    }
}

/// A signed transaction as the model sees it.
pub struct SignedTransactionView {
    pub raw: RawTransactionView,
    pub hash: Seq<u8>,
    pub signature: Seq<u8>,
}

impl SignedTransactionView {
    /// The outcome of the self-consistency check: the recorded digest must
    /// be the digest of the transaction, and the signature must verify over
    /// the recorded digest under the authorizing key.
    pub open spec fn check_signature(self) -> Result<(), TransactionValidationError> {
        if self.raw.digest() != self.hash {
            Err(TransactionValidationError::HashIncorrect)
        } else if !ed25519_verifies(self.raw.pubkey, self.hash, self.signature) {
            Err(TransactionValidationError::SignatureIncorrect)
        } else {
            Ok(())
        }
    }
}

/// The check of a run of inputs, in order, against the unspent outputs:
/// each input must refer to an unspent output, and `pubkey` must own it.
/// The outcome is the first fault, or the sum of the amounts referred to.
pub open spec fn check_inputs(inputs: Seq<InputView>, pubkey: Seq<u8>, utxos: Ledger) -> Result<
    nat,
    TransactionValidationError,
>
    decreases inputs.len(),
{
    if inputs.len() == 0 {
        Ok(0)
    } else {
        match check_inputs(inputs.drop_last(), pubkey, utxos) {
            Err(fault) => Err(fault),
            Ok(sum) => {
                let input = inputs.last();
                if !utxos.contains_key(input) {
                    Err(TransactionValidationError::InputInvalid)
                } else if utxos[input].pubkey != pubkey {
                    Err(TransactionValidationError::UnauthorizedInput)
                } else {
                    Ok(sum + utxos[input].amount)
                }
            },
        }
    }
}

/// The balance rule: what is consumed must equal what is produced.
pub open spec fn balance(total_input: nat, total_output: nat) -> Result<
    (),
    TransactionValidationError,
> {
    if total_input < total_output {
        Err(TransactionValidationError::InsufficientInput)
    } else if total_input > total_output {
        Err(TransactionValidationError::InsufficientOutput)
    } else {
        Ok(())
    }
}

impl SignedTransactionView {
    /// The outcome of validation against `utxos`: the inputs are checked
    /// first, then the balance, then the digest and the signature.
    pub open spec fn validate(self, utxos: Ledger) -> Result<(), TransactionValidationError> {
        match check_inputs(self.raw.inputs, self.raw.pubkey, utxos) {
            Err(fault) => Err(fault),
            Ok(total_input) => match balance(total_input, total_amount(self.raw.outputs)) {
                Err(fault) => Err(fault),
                Ok(()) => self.check_signature(),
            },
        }
    }
}

/// Inputs, outputs and the one key that authorizes spending the inputs.
pub struct RawTransaction {
    inputs: Vec<Input>,
    outputs: Vec<Output>,
    pubkey: VerifyingKey,
}

impl View for RawTransaction {
    type V = RawTransactionView;

    closed spec fn view(&self) -> RawTransactionView {
        RawTransactionView {
            inputs: input_views(self.inputs@),
            outputs: output_views(self.outputs@),
            pubkey: self.pubkey@,
        }
    }
}

impl RawTransaction {
    pub fn new(inputs: Vec<Input>, outputs: Vec<Output>, pubkey: VerifyingKey) -> (raw: Self)
        ensures
            raw@ == (RawTransactionView {
                inputs: input_views(inputs@),
                outputs: output_views(outputs@),
                pubkey: pubkey@,
            }),
    {
        RawTransaction { inputs, outputs, pubkey }
    }

    pub fn inputs(&self) -> (inputs: &[Input])
        ensures
            input_views(inputs@) == self@.inputs,
    {
        self.inputs.as_slice()
    }

    pub fn outputs(&self) -> (outputs: &[Output])
        ensures
            output_views(outputs@) == self@.outputs,
    {
        self.outputs.as_slice()
    }

    /// The digest of the inputs in order, then the outputs in order, then
    /// the authorizing key.
    pub fn hash(&self) -> (digest: shared::Hash)
        ensures
            digest@ == self@.digest(),
    {
        let mut hasher: Vec<u8> = Vec::new();
        let mut at: usize = 0;
        while at < self.inputs.len()
            invariant
                at <= self.inputs.len(),
                hasher@ == inputs_bytes(input_views(self.inputs@).take(at as int)),
            decreases self.inputs.len() - at,
        {
            self.inputs[at].add_to_hash(&mut hasher);
            proof {
                let views = input_views(self.inputs@);
                assert(views.take(at + 1).drop_last() == views.take(at as int));
            }
            at += 1;
        }
        assert(input_views(self.inputs@).take(at as int) == input_views(self.inputs@));
        let ghost inputs_part = hasher@;
        let mut at: usize = 0;
        while at < self.outputs.len()
            invariant
                at <= self.outputs.len(),
                hasher@ == inputs_part + outputs_bytes(output_views(self.outputs@).take(at as int)),
            decreases self.outputs.len() - at,
        {
            self.outputs[at].add_to_hash(&mut hasher);
            proof {
                let views = output_views(self.outputs@);
                assert(views.take(at + 1).drop_last() == views.take(at as int));
            }
            at += 1;
        }
        assert(output_views(self.outputs@).take(at as int) == output_views(self.outputs@));
        hasher.extend_from_slice(self.pubkey.as_bytes().as_slice());
        assert(hasher@ == self@.bytes());
        sha256_digest(hasher.as_slice())
    }

    /// Signs the transaction's digest with `sign_key`. That `sign_key`
    /// belongs to the authorizing key is the caller's concern.
    pub fn sign(self, sign_key: &mut SigningKey) -> (signed: SignedTransaction)
        ensures
            *final(sign_key) == *old(sign_key),
            signed@ == (SignedTransactionView {
                raw: self@,
                hash: self@.digest(),
                signature: ed25519_signature(old(sign_key)@, self@.digest()),
            }),
    {
        SignedTransaction::from_raw(self, sign_key)
    }

    pub fn get_pubkey(&self) -> (pubkey: &VerifyingKey)
        ensures
            pubkey@ == self@.pubkey,
    {
        &self.pubkey
    }

    /// The transaction without inputs that pays `amount` to `pubkey`.
    pub fn coinbase(pubkey: VerifyingKey, amount: u64) -> (raw: Self)
        ensures
            raw@ == coinbase_view(pubkey@, amount as nat),
    {
        let inputs: Vec<Input> = Vec::new();
        let mut outputs: Vec<Output> = Vec::new();
        outputs.push(Output::new(pubkey, amount));
        let raw = RawTransaction { inputs, outputs, pubkey };
        assert(raw@.inputs == Seq::<InputView>::empty());
        assert(raw@.outputs == seq![OutputView { pubkey: pubkey@, amount: amount as nat }]);
        raw
    }
}

/// The transaction without inputs whose one output pays `amount` to
/// `pubkey`, authorized by `pubkey`.
pub open spec fn coinbase_view(pubkey: Seq<u8>, amount: nat) -> RawTransactionView {
    RawTransactionView {
        inputs: Seq::empty(),
        outputs: seq![OutputView { pubkey, amount }],
        pubkey,
    }
}

/// A transaction with a recorded digest and a signature over it.
pub struct SignedTransaction {
    raw: RawTransaction,
    hash: shared::Hash,
    signature: Signature,
}

impl View for SignedTransaction {
    type V = SignedTransactionView;

    closed spec fn view(&self) -> SignedTransactionView {
        SignedTransactionView { raw: self.raw@, hash: self.hash@, signature: self.signature@ }
    }
}

impl SignedTransaction {
    /// A signed transaction as it was received: nothing is checked, and
    /// neither the digest nor the signature need fit the transaction.
    pub fn from_parts(raw: RawTransaction, hash: shared::Hash, signature: Signature) -> (signed:
        Self)
        ensures
            signed@ == (SignedTransactionView { raw: raw@, hash: hash@, signature: signature@ }),
    {
        SignedTransaction { raw, hash, signature }
    }

    pub fn data(&self) -> (raw: &RawTransaction)
        ensures
            raw@ == self@.raw,
    {
        &self.raw
    }

    pub fn inputs(&self) -> (inputs: &[Input])
        ensures
            input_views(inputs@) == self@.raw.inputs,
    {
        self.raw.inputs()
    }

    pub fn outputs(&self) -> (outputs: &[Output])
        ensures
            output_views(outputs@) == self@.raw.outputs,
    {
        self.raw.outputs()
    }

    pub fn get_hash(&self) -> (hash: &shared::Hash)
        ensures
            hash@ == self@.hash,
    {
        &self.hash
    }

    pub fn get_signature(&self) -> (signature: &Signature)
        ensures
            signature@ == self@.signature,
    {
        &self.signature
    }

    /// Records the digest of `raw` and signs it with `sign_key`.
    pub fn from_raw(raw: RawTransaction, sign_key: &mut SigningKey) -> (signed: Self)
        ensures
            *final(sign_key) == *old(sign_key),
            signed@ == (SignedTransactionView {
                raw: raw@,
                hash: raw@.digest(),
                signature: ed25519_signature(old(sign_key)@, raw@.digest()),
            }),
    {
        let hash = raw.hash();
        let signature = sign_key.sign(hash.as_slice());
        SignedTransaction { raw, hash, signature }
    }

    pub fn get_pubkey(&self) -> (pubkey: &VerifyingKey)
        ensures
            pubkey@ == self@.raw.pubkey,
    {
        self.raw.get_pubkey()
    }

    /// Checks the recorded digest against the transaction, then the
    /// signature against the recorded digest.
    pub fn check_signature(&self) -> (checked: Result<(), TransactionValidationError>)
        ensures
            checked == self@.check_signature(),
    {
        let digest = self.raw.hash();
        if !bytes_eq(&digest, &self.hash) {
            return Err(TransactionValidationError::HashIncorrect);
        }
        if self.get_pubkey().verify_strict(self.hash.as_slice(), &self.signature) {
            Ok(())
        } else {
            Err(TransactionValidationError::SignatureIncorrect)
        }
    }

    /// The signed coinbase transaction that pays `amount` to the public
    /// half of `sign_key`.
    pub fn coinbase(sign_key: &mut SigningKey, amount: u64) -> (signed: Self)
        ensures
            *final(sign_key) == *old(sign_key),
            signed@ == signed_coinbase_view(old(sign_key)@, amount as nat),
    {
        let raw = RawTransaction::coinbase(sign_key.verifying_key(), amount);
        Self::from_raw(raw, sign_key)
    }
}

/// The coinbase transaction for `amount` as the holder of the secret key
/// `seed` signs it.
pub open spec fn signed_coinbase_view(seed: Seq<u8>, amount: nat) -> SignedTransactionView {
    let raw = coinbase_view(ed25519_public_key(seed), amount);
    SignedTransactionView {
        raw,
        hash: raw.digest(),
        signature: ed25519_signature(seed, raw.digest()),
    }
}

/// A signed transaction that is trusted to enter a block and to change the
/// unspent outputs: one that `validate` has passed, or a coinbase.
pub struct ValidatedTransaction {
    transaction: SignedTransaction,
}

impl View for ValidatedTransaction {
    type V = SignedTransactionView;

    closed spec fn view(&self) -> SignedTransactionView {
        self.transaction@
    }
}

impl ValidatedTransaction {
    /// Validates `signed_transaction` against the unspent outputs. Amounts
    /// are summed without loss, however many there are.
    pub fn validate(signed_transaction: SignedTransaction, utxo_map: &UTXOMap) -> (validated:
        Result<Self, TransactionValidationError>)
        ensures
            match validated {
                Ok(transaction) => transaction@ == signed_transaction@
                    && signed_transaction@.validate(utxo_map@) == Ok::<
                    (),
                    TransactionValidationError,
                >(()),
                Err(fault) => signed_transaction@.validate(utxo_map@) == Err::<
                    (),
                    TransactionValidationError,
                >(fault),
            },
    {
        let total_input = match Self::sum_and_validat_inputs(
            signed_transaction.inputs(),
            signed_transaction.get_pubkey(),
            utxo_map,
        ) {
            Ok(sum) => sum,
            Err(fault) => {
                return Err(fault);
            },
        };
        let total_output = Self::sum_outputs(signed_transaction.outputs());
        match Self::check_balance(total_input, total_output) {
            Ok(()) => {},
            Err(fault) => {
                return Err(fault);
            },
        }
        match signed_transaction.check_signature() {
            Ok(()) => {},
            Err(fault) => {
                return Err(fault);
            },
        }
        Ok(ValidatedTransaction { transaction: signed_transaction })
    }

    /// Checks each input in order and sums the amounts they refer to.
    pub fn sum_and_validat_inputs(inputs: &[Input], pubkey: &VerifyingKey, utxo_map: &UTXOMap) -> (
        checked: Result<u128, TransactionValidationError>)
        ensures
            match checked {
                Ok(sum) => check_inputs(input_views(inputs@), pubkey@, utxo_map@) == Ok::<
                    nat,
                    TransactionValidationError,
                >(sum as nat),
                Err(fault) => check_inputs(input_views(inputs@), pubkey@, utxo_map@) == Err::<
                    nat,
                    TransactionValidationError,
                >(fault),
            },
    {
        let ghost views = input_views(inputs@);
        let mut input_sum: u128 = 0;
        let mut at: usize = 0;
        while at < inputs.len()
            invariant
                at <= inputs.len(),
                views == input_views(inputs@),
                check_inputs(views.take(at as int), pubkey@, utxo_map@) == Ok::<
                    nat,
                    TransactionValidationError,
                >(input_sum as nat),
                input_sum <= at * u64::MAX,
            decreases inputs.len() - at,
        {
            proof {
                assert(views.take(at + 1).drop_last() == views.take(at as int));
                lemma_check_inputs_fault_stays(views, at + 1, pubkey@, utxo_map@);
            }
            let output = match utxo_map.try_find_matching_output(&inputs[at]) {
                Some(output) => output,
                None => {
                    return Err(TransactionValidationError::InputInvalid);
                },
            };
            if !(*output.get_pubkey() == *pubkey) {
                return Err(TransactionValidationError::UnauthorizedInput);
            }
            input_sum = input_sum + output.get_amount() as u128;
            at += 1;
        }
        assert(views.take(at as int) == views);
        Ok(input_sum)
    }

    /// The sum of the amounts of `outputs`.
    pub fn sum_outputs(outputs: &[Output]) -> (sum: u128)
        ensures
            sum == total_amount(output_views(outputs@)),
    {
        let ghost views = output_views(outputs@);
        let mut sum: u128 = 0;
        let mut at: usize = 0;
        while at < outputs.len()
            invariant
                at <= outputs.len(),
                views == output_views(outputs@),
                sum == total_amount(views.take(at as int)),
                sum <= at * u64::MAX,
            decreases outputs.len() - at,
        {
            proof {
                assert(views.take(at + 1).drop_last() == views.take(at as int));
            }
            sum = sum + outputs[at].get_amount() as u128;
            at += 1;
        }
        assert(views.take(at as int) == views);
        sum
    }

    /// The balance rule: what is consumed must equal what is produced.
    pub fn check_balance(total_input: u128, total_output: u128) -> (checked: Result<
        (),
        TransactionValidationError,
    >)
        ensures
            checked == balance(total_input as nat, total_output as nat),
    {
        if total_input < total_output {
            Err(TransactionValidationError::InsufficientInput)
        } else if total_input > total_output {
            Err(TransactionValidationError::InsufficientOutput)
        } else {
            Ok(())
        }
    }

    pub fn get_hash(&self) -> (hash: &shared::Hash)
        ensures
            hash@ == self@.hash,
    {
        self.transaction.get_hash()
    }

    /// The coinbase transaction of the next block of `block_chain`: no
    /// inputs, and the chain's coinbase amount paid to the public half of
    /// `sign_key`. It is trusted as it is made; it would not pass
    /// `validate`, which asks that inputs pay for outputs.
    pub fn get_coin_base(block_chain: &BlockChain, sign_key: &mut SigningKey) -> (coin_base: Self)
        ensures
            *final(sign_key) == *old(sign_key),
            coin_base@ == signed_coinbase_view(old(sign_key)@, COIN_BASE_AMOUNT as nat),
    {
        let amount = block_chain.get_coin_base_amount();
        ValidatedTransaction { transaction: SignedTransaction::coinbase(sign_key, amount) }
    }

    pub fn inputs(&self) -> (inputs: &[Input])
        ensures
            input_views(inputs@) == self@.raw.inputs,
    {
        self.transaction.inputs()
    }

    pub fn outputs(&self) -> (outputs: &[Output])
        ensures
            output_views(outputs@) == self@.raw.outputs,
    {
        self.transaction.outputs()
    }
}

/// Every input refers to an unspent output, and `pubkey` owns it.
pub open spec fn spendable_by(inputs: Seq<InputView>, pubkey: Seq<u8>, utxos: Ledger) -> bool {
    forall|at: int|
        0 <= at < inputs.len() ==> utxos.contains_key(#[trigger] inputs[at])
            && utxos[inputs[at]].pubkey == pubkey
}

/// The sum of the amounts of the outputs that the inputs refer to, each
/// counted as often as it is referred to.
pub open spec fn consumed_amount(inputs: Seq<InputView>, utxos: Ledger) -> nat
    decreases inputs.len(),
{
    if inputs.len() == 0 {
        0
    } else {
        consumed_amount(inputs.drop_last(), utxos) + utxos[inputs.last()].amount
    }
}

/// Inputs that all refer to unspent outputs of `pubkey` pass the check of
/// the inputs, with the sum of what they refer to.
pub proof fn lemma_spendable_inputs_pass(inputs: Seq<InputView>, pubkey: Seq<u8>, utxos: Ledger)
    requires
        spendable_by(inputs, pubkey, utxos),
    ensures
        check_inputs(inputs, pubkey, utxos) == Ok::<nat, TransactionValidationError>(
            consumed_amount(inputs, utxos),
        ),
    decreases inputs.len(),
{
    if inputs.len() > 0 {
        let shorter = inputs.drop_last();
        assert forall|at: int| 0 <= at < shorter.len() implies utxos.contains_key(
            #[trigger] shorter[at],
        ) && utxos[shorter[at]].pubkey == pubkey by {
            assert(shorter[at] == inputs[at]);
        }
        lemma_spendable_inputs_pass(shorter, pubkey, utxos);
        assert(inputs.last() == inputs[inputs.len() - 1]);
    }
}

/// A transaction passes validation when each of its inputs refers to an
/// unspent output that the authorizing key owns, what it consumes equals
/// what it produces, its recorded digest is its digest, and its signature
/// verifies.
pub proof fn lemma_sound_transaction_passes(transaction: SignedTransactionView, utxos: Ledger)
    requires
        spendable_by(transaction.raw.inputs, transaction.raw.pubkey, utxos),
        consumed_amount(transaction.raw.inputs, utxos) == total_amount(transaction.raw.outputs),
        transaction.hash == transaction.raw.digest(),
        ed25519_verifies(transaction.raw.pubkey, transaction.hash, transaction.signature),
    ensures
        transaction.validate(utxos) == Ok::<(), TransactionValidationError>(()),
{
    lemma_spendable_inputs_pass(transaction.raw.inputs, transaction.raw.pubkey, utxos);
}

/// A transaction whose inputs are in order is refused for its balance when
/// it consumes less than it produces, or more. No other fault is reported
/// in its place.
pub proof fn lemma_unbalanced_transaction_refused(
    transaction: SignedTransactionView,
    utxos: Ledger,
)
    requires
        spendable_by(transaction.raw.inputs, transaction.raw.pubkey, utxos),
        consumed_amount(transaction.raw.inputs, utxos) != total_amount(transaction.raw.outputs),
    ensures
        consumed_amount(transaction.raw.inputs, utxos) < total_amount(transaction.raw.outputs)
            ==> transaction.validate(utxos) == Err::<(), TransactionValidationError>(
            TransactionValidationError::InsufficientInput,
        ),
        consumed_amount(transaction.raw.inputs, utxos) > total_amount(transaction.raw.outputs)
            ==> transaction.validate(utxos) == Err::<(), TransactionValidationError>(
            TransactionValidationError::InsufficientOutput,
        ),
{
    lemma_spendable_inputs_pass(transaction.raw.inputs, transaction.raw.pubkey, utxos);
}

/// A transaction is refused for the first of its inputs that is not in
/// order: as invalid if that input refers to no unspent output, as
/// unauthorized if the authorizing key does not own the output. Neither the
/// balance nor the signature is looked at.
pub proof fn lemma_faulty_input_refused(
    transaction: SignedTransactionView,
    at: int,
    utxos: Ledger,
)
    requires
        0 <= at < transaction.raw.inputs.len(),
        spendable_by(transaction.raw.inputs.take(at), transaction.raw.pubkey, utxos),
        !utxos.contains_key(transaction.raw.inputs[at]) || utxos[transaction.raw.inputs[at]].pubkey
            != transaction.raw.pubkey,
    ensures
        !utxos.contains_key(transaction.raw.inputs[at]) ==> transaction.validate(utxos) == Err::<
            (),
            TransactionValidationError,
        >(TransactionValidationError::InputInvalid),
        utxos.contains_key(transaction.raw.inputs[at]) ==> transaction.validate(utxos) == Err::<
            (),
            TransactionValidationError,
        >(TransactionValidationError::UnauthorizedInput),
{
    let inputs = transaction.raw.inputs;
    let pubkey = transaction.raw.pubkey;
    lemma_spendable_inputs_pass(inputs.take(at), pubkey, utxos);
    assert(inputs.take(at + 1).drop_last() == inputs.take(at));
    lemma_check_inputs_fault_stays(inputs, at + 1, pubkey, utxos);
}

/// A transaction that is in order but for its signature is refused for its
/// signature.
pub proof fn lemma_bad_signature_refused(transaction: SignedTransactionView, utxos: Ledger)
    requires
        spendable_by(transaction.raw.inputs, transaction.raw.pubkey, utxos),
        consumed_amount(transaction.raw.inputs, utxos) == total_amount(transaction.raw.outputs),
        transaction.hash == transaction.raw.digest(),
        !ed25519_verifies(transaction.raw.pubkey, transaction.hash, transaction.signature),
    ensures
        transaction.check_signature() == Err::<(), TransactionValidationError>(
            TransactionValidationError::SignatureIncorrect,
        ),
        transaction.validate(utxos) == Err::<(), TransactionValidationError>(
            TransactionValidationError::SignatureIncorrect,
        ),
{
    lemma_spendable_inputs_pass(transaction.raw.inputs, transaction.raw.pubkey, utxos);
}

/// `bytes` with bit `bit` inverted; bits are counted from the lowest bit of
/// the first byte.
pub open spec fn flip_bit(bytes: Seq<u8>, bit: int) -> Seq<u8> {
    bytes.update(bit / 8, bytes[bit / 8] ^ (1u8 << ((bit % 8) as u8)))
}

/// Inverting a bit changes a byte string.
pub proof fn lemma_flip_bit_changes(bytes: Seq<u8>, bit: int)
    requires
        0 <= bit < 8 * bytes.len(),
    ensures
        flip_bit(bytes, bit) != bytes,
        flip_bit(bytes, bit).len() == bytes.len(),
{
    let byte = bytes[bit / 8];
    let shift = (bit % 8) as u8;
    assert(byte ^ (1u8 << shift) != byte) by (bit_vector)
        requires
            shift < 8,
    ;
    assert(flip_bit(bytes, bit)[bit / 8] != bytes[bit / 8]);
}

/// A transaction whose recorded digest is not its digest fails the
/// self-consistency check for its digest, whatever its signature; it never
/// passes validation, and is refused for its digest when its inputs and
/// its balance are in order. This holds of a recorded digest in which one
/// bit has been inverted.
pub proof fn lemma_tampered_digest_refused(
    transaction: SignedTransactionView,
    utxos: Ledger,
    bit: int,
)
    requires
        transaction.hash == transaction.raw.digest(),
        0 <= bit < 8 * transaction.hash.len(),
    ensures
        ({
            let tampered = SignedTransactionView {
                hash: flip_bit(transaction.hash, bit),
                ..transaction
            };
            &&& tampered.check_signature() == Err::<(), TransactionValidationError>(
                TransactionValidationError::HashIncorrect,
            )
            &&& tampered.validate(utxos) is Err
            &&& spendable_by(transaction.raw.inputs, transaction.raw.pubkey, utxos)
                && consumed_amount(transaction.raw.inputs, utxos) == total_amount(
                transaction.raw.outputs,
            ) ==> tampered.validate(utxos) == Err::<(), TransactionValidationError>(
                TransactionValidationError::HashIncorrect,
            )
        }),
{
    lemma_flip_bit_changes(transaction.hash, bit);
    if spendable_by(transaction.raw.inputs, transaction.raw.pubkey, utxos) {
        lemma_spendable_inputs_pass(transaction.raw.inputs, transaction.raw.pubkey, utxos);
    }
}

/// A fault among the first `upto` inputs is the outcome for the whole run.
pub proof fn lemma_check_inputs_fault_stays(
    inputs: Seq<InputView>,
    upto: int,
    pubkey: Seq<u8>,
    utxos: Ledger,
)
    requires
        0 <= upto <= inputs.len(),
    ensures
        check_inputs(inputs.take(upto), pubkey, utxos) is Err ==> check_inputs(
            inputs,
            pubkey,
            utxos,
        ) == check_inputs(inputs.take(upto), pubkey, utxos),
    decreases inputs.len() - upto,
{
    if upto < inputs.len() {
        assert(inputs.take(upto + 1).drop_last() == inputs.take(upto));
        lemma_check_inputs_fault_stays(inputs, upto + 1, pubkey, utxos);
    } else {
        assert(inputs.take(upto) == inputs);
    }
}

} // verus!
