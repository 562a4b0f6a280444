//! Blocks, and the acceptance of a block that someone else made.

use crate::block_chain::{BlockChain, ChainView};
use crate::blocks::mining_block::{mined_view, HeaderView, MiningBlock};
use crate::encoding::{base64_standard, base64_text};
use crate::shared;
use crate::shared::{bytes_eq, meet_difficulty};
use crate::transactions::transaction::{
    SignedTransaction, SignedTransactionView, TransactionValidationError, ValidatedTransaction,
};
use crate::transactions::merkel::{
    get_merkel_hash, merkel_root, transaction_digests, MERKEL_LIMIT,
};
use crate::transactions::transaction_input::{input_views, Input, InputView};
use crate::utxo_map::{Ledger, UTXOMap};
use vstd::prelude::*;

verus! {

/// A block as the model sees it.
pub struct BlockView {
    pub header: HeaderView,
    pub hash: Seq<u8>,
    pub transactions: Seq<SignedTransactionView>,
}

impl BlockView {
    /// The recorded digest is the header's digest.
    pub open spec fn well_formed(self) -> bool {
        self.hash == self.header.digest()
    }
}

/// The model's view of a run of validated transactions.
pub open spec fn validated_views(transactions: Seq<ValidatedTransaction>) -> Seq<
    SignedTransactionView,
> {
    Seq::new(transactions.len(), |at: int| transactions[at]@)
}

/// The model's view of a run of signed transactions.
pub open spec fn signed_views(transactions: Seq<SignedTransaction>) -> Seq<SignedTransactionView> {
    Seq::new(transactions.len(), |at: int| transactions[at]@)
}

/// The inputs that a list of spent inputs stands for.
pub open spec fn spent_set(spent: Seq<Input>) -> Set<InputView> {
    input_views(spent).to_set()
}

/// Whether one of the inputs of `transaction` is in `spent`.
pub open spec fn spends_any(transaction: SignedTransactionView, spent: Set<InputView>) -> bool {
    exists|at: int|
        0 <= at < transaction.raw.inputs.len() && spent.contains(
            #[trigger] transaction.raw.inputs[at],
        )
}

/// The check of one transaction of a block. `spent` holds the inputs of the
/// transactions before it. A transaction that spends one of them again is a
/// double spend; this is judged before the transaction itself is validated
/// against `utxos`. A transaction that passes adds its inputs to the spent
/// ones.
pub open spec fn check_transaction(
    transaction: SignedTransactionView,
    spent: Set<InputView>,
    utxos: Ledger,
) -> Result<Set<InputView>, BlockValidationError> {
    if spends_any(transaction, spent) {
        Err(BlockValidationError::UTXOSpentMultipleTime)
    } else {
        match transaction.validate(utxos) {
            Err(fault) => Err(BlockValidationError::TransactionValidationError(fault)),
            Ok(()) => Ok(spent.union(transaction.raw.inputs.to_set())),
        }
    }
}

/// The check of the transactions of a block, in order, all against the
/// same unspent outputs: the first fault, or the inputs that the
/// transactions spend.
pub open spec fn check_transactions(
    transactions: Seq<SignedTransactionView>,
    utxos: Ledger,
) -> Result<Set<InputView>, BlockValidationError>
    decreases transactions.len(),
{
    if transactions.len() == 0 {
        Ok(Set::empty())
    } else {
        match check_transactions(transactions.drop_last(), utxos) {
            Err(fault) => Err(fault),
            Ok(spent) => check_transaction(transactions.last(), spent, utxos),
        }
    }
}

/// Whether a block that someone else made is accepted on top of `chain`:
/// its recorded digest must be its header's, the header must fit the chain,
/// and its transactions must pass. The first of these that fails is the
/// fault.
pub open spec fn acceptance(chain: ChainView, block: BlockView) -> Result<
    (),
    BlockValidationError,
> {
    if block.header.digest() != block.hash {
        Err(BlockValidationError::WrongHash)
    } else {
        match chain.check_compatibility(block.header) {
            Err(fault) => Err(fault),
            Ok(()) => match check_transactions(block.transactions, chain.utxos) {
                Err(fault) => Err(fault),
                Ok(spent) => Ok(()),
            },
        }
    }
}

/// A fault among the first `upto` transactions is the outcome for all.
pub proof fn lemma_check_transactions_fault_stays(
    transactions: Seq<SignedTransactionView>,
    upto: int,
    utxos: Ledger,
)
    requires
        0 <= upto <= transactions.len(),
    ensures
        check_transactions(transactions.take(upto), utxos) is Err ==> check_transactions(
            transactions,
            utxos,
        ) == check_transactions(transactions.take(upto), utxos),
    decreases transactions.len() - upto,
{
    if upto < transactions.len() {
        assert(transactions.take(upto + 1).drop_last() == transactions.take(upto));
        lemma_check_transactions_fault_stays(transactions, upto + 1, utxos);
    } else {
        assert(transactions.take(upto) == transactions);
    }
}

/// Acceptance is of all transactions or of none: one transaction that does
/// not pass validation by itself keeps the transactions from passing, and
/// the block from being accepted.
pub proof fn lemma_faulty_transaction_refuses_all(chain: ChainView, block: BlockView, at: int)
    requires
        0 <= at < block.transactions.len(),
        block.transactions[at].validate(chain.utxos) is Err,
    ensures
        check_transactions(block.transactions, chain.utxos) is Err,
        acceptance(chain, block) is Err,
{
    let transactions = block.transactions;
    assert(transactions.take(at + 1).drop_last() == transactions.take(at));
    assert(transactions.take(at + 1).last() == transactions[at]);
    lemma_check_transactions_fault_stays(transactions, at + 1, chain.utxos);
}

/// Whether two transactions have an input in common.
pub open spec fn share_input(one: SignedTransactionView, other: SignedTransactionView) -> bool {
    exists|here: int, there: int|
        0 <= here < one.raw.inputs.len() && 0 <= there < other.raw.inputs.len()
            && #[trigger] one.raw.inputs[here] == #[trigger] other.raw.inputs[there]
}

/// When the transactions pass, the spent inputs are those of all of them.
pub proof fn lemma_spent_inputs(transactions: Seq<SignedTransactionView>, utxos: Ledger)
    requires
        check_transactions(transactions, utxos) is Ok,
    ensures
        forall|at: int, here: int|
            0 <= at < transactions.len() && 0 <= here < transactions[at].raw.inputs.len()
                ==> check_transactions(transactions, utxos)->Ok_0.contains(
                #[trigger] transactions[at].raw.inputs[here],
            ),
    decreases transactions.len(),
{
    if transactions.len() > 0 {
        let shorter = transactions.drop_last();
        lemma_spent_inputs(shorter, utxos);
        let spent = check_transactions(transactions, utxos)->Ok_0;
        assert forall|at: int, here: int|
            0 <= at < transactions.len() && 0 <= here
                < transactions[at].raw.inputs.len() implies spent.contains(
            #[trigger] transactions[at].raw.inputs[here],
        ) by {
            if at < shorter.len() {
                assert(shorter[at] == transactions[at]);
            } else {
                assert(transactions.last().raw.inputs.to_set().contains(
                    transactions[at].raw.inputs[here],
                ));
            }
        }
    }
}

/// While each transaction passes validation by itself, the only fault
/// among the transactions of a block is a double spend.
pub proof fn lemma_only_double_spend(transactions: Seq<SignedTransactionView>, utxos: Ledger)
    requires
        forall|at: int|
            0 <= at < transactions.len() ==> (#[trigger] transactions[at]).validate(utxos) is Ok,
    ensures
        check_transactions(transactions, utxos) is Err ==> check_transactions(transactions, utxos)
            == Err::<Set<InputView>, BlockValidationError>(
            BlockValidationError::UTXOSpentMultipleTime,
        ),
    decreases transactions.len(),
{
    if transactions.len() > 0 {
        let shorter = transactions.drop_last();
        assert forall|at: int| 0 <= at < shorter.len() implies (#[trigger] shorter[at]).validate(
            utxos,
        ) is Ok by {
            assert(shorter[at] == transactions[at]);
        }
        lemma_only_double_spend(shorter, utxos);
        assert(transactions.last() == transactions[transactions.len() - 1]);
    }
}

/// Two transactions of a block that spend one input are never both
/// accepted: the transactions do not pass, in whatever order they stand.
/// When every transaction before the later of the two passes validation by
/// itself, the fault is the double spend.
pub proof fn lemma_double_spend_refused(
    transactions: Seq<SignedTransactionView>,
    first: int,
    second: int,
    utxos: Ledger,
)
    requires
        0 <= first < second < transactions.len(),
        share_input(transactions[first], transactions[second]),
    ensures
        check_transactions(transactions, utxos) is Err,
        (forall|at: int| 0 <= at < second ==> (#[trigger] transactions[at]).validate(utxos) is Ok)
            ==> check_transactions(transactions, utxos) == Err::<
            Set<InputView>,
            BlockValidationError,
        >(BlockValidationError::UTXOSpentMultipleTime),
{
    let before = transactions.take(second);
    let upto = transactions.take(second + 1);
    assert(upto.drop_last() == before);
    assert(upto.last() == transactions[second]);
    lemma_check_transactions_fault_stays(transactions, second, utxos);
    lemma_check_transactions_fault_stays(transactions, second + 1, utxos);
    if check_transactions(before, utxos) is Ok {
        lemma_spent_inputs(before, utxos);
        let spent = check_transactions(before, utxos)->Ok_0;
        let (here, there) = choose|here: int, there: int|
            0 <= here < transactions[first].raw.inputs.len() && 0 <= there
                < transactions[second].raw.inputs.len()
                && #[trigger] transactions[first].raw.inputs[here]
                == #[trigger] transactions[second].raw.inputs[there];
        assert(before[first] == transactions[first]);
        assert(spent.contains(before[first].raw.inputs[here]));
        assert(spent.contains(transactions[second].raw.inputs[there]));
        assert(spends_any(transactions[second], spent));
    }
    if forall|at: int| 0 <= at < second ==> (#[trigger] transactions[at]).validate(utxos) is Ok {
        assert forall|at: int| 0 <= at < before.len() implies (#[trigger] before[at]).validate(
            utxos,
        ) is Ok by {
            assert(before[at] == transactions[at]);
        }
        lemma_only_double_spend(before, utxos);
    }
}

/// A block with a sound header in which two transactions spend one input
/// is refused; for the double spend, when every transaction before the
/// later of the two passes validation by itself.
pub proof fn lemma_block_with_double_spend_refused(
    chain: ChainView,
    block: BlockView,
    first: int,
    second: int,
)
    requires
        0 <= first < second < block.transactions.len(),
        share_input(block.transactions[first], block.transactions[second]),
    ensures
        acceptance(chain, block) is Err,
        block.well_formed() && chain.check_compatibility(block.header) is Ok && (forall|at: int|
            0 <= at < second ==> (#[trigger] block.transactions[at]).validate(chain.utxos) is Ok)
            ==> acceptance(chain, block) == Err::<(), BlockValidationError>(
            BlockValidationError::UTXOSpentMultipleTime,
        ),
{
    lemma_double_spend_refused(block.transactions, first, second, chain.utxos);
}

/// A header that asks for less than the chain's difficulty is refused for
/// that, whatever else is wrong with it; so is a block with such a header
/// and its header's digest.
pub proof fn lemma_low_difficulty_refused(chain: ChainView, block: BlockView)
    requires
        block.header.difficulty < chain.difficulty,
    ensures
        chain.check_compatibility(block.header) == Err::<(), BlockValidationError>(
            BlockValidationError::DifficultyTooLow,
        ),
        block.well_formed() ==> acceptance(chain, block) == Err::<(), BlockValidationError>(
            BlockValidationError::DifficultyTooLow,
        ),
{
}

/// A header within the chain's policy that does not name the chain's tip
/// as its predecessor is refused for that; so is a block with such a
/// header and its header's digest.
pub proof fn lemma_wrong_predecessor_refused(chain: ChainView, block: BlockView)
    requires
        block.header.difficulty >= chain.difficulty,
        block.header.version >= chain.version,
        block.header.previous_hash != chain.tip(),
    ensures
        chain.check_compatibility(block.header) == Err::<(), BlockValidationError>(
            BlockValidationError::WrongPreviousHash,
        ),
        block.well_formed() ==> acceptance(chain, block) == Err::<(), BlockValidationError>(
            BlockValidationError::WrongPreviousHash,
        ),
{
}

/// A block as it was received: nothing of it has been checked.
pub struct UntrustedBlock {
    data: MiningBlock,
    hash: shared::Hash,
    transactions: Vec<SignedTransaction>,
}

impl View for UntrustedBlock {
    type V = BlockView;

    closed spec fn view(&self) -> BlockView {
        BlockView {
            header: self.data@,
            hash: self.hash@,
            transactions: signed_views(self.transactions@),
        }
    }
}

impl UntrustedBlock {
    pub fn new(data: MiningBlock, hash: shared::Hash, transactions: Vec<SignedTransaction>) -> (
        block: Self)
        ensures
            block@ == (BlockView {
                header: data@,
                hash: hash@,
                transactions: signed_views(transactions@),
            }),
    {
        UntrustedBlock { data, hash, transactions }
    }
}

/// Whether `input` is among `inputs`.
fn contains_input(inputs: &[Input], input: &Input) -> (found: bool)
    ensures
        found == input_views(inputs@).to_set().contains(input@),
{
    let ghost views = input_views(inputs@);
    let mut at: usize = 0;
    while at < inputs.len()
        invariant
            at <= inputs.len(),
            views == input_views(inputs@),
            forall|before: int| 0 <= before < at ==> views[before] != input@,
        decreases inputs.len() - at,
    {
        if inputs[at] == *input {
            assert(views[at as int] == input@);
            return true;
        }
        at += 1;
    }
    false
}

/// Checks one transaction of a block: first that none of its inputs is
/// among those already spent in the block, then the transaction itself
/// against the unspent outputs. The inputs of a transaction that passes
/// join the spent ones; otherwise these stay as they were.
pub fn validate_untrusted_transaction(
    utxos: &UTXOMap,
    spent_map: &mut Vec<Input>,
    untrusted_transaction: SignedTransaction,
) -> (validated: Result<ValidatedTransaction, BlockValidationError>)
    ensures
        match validated {
            Ok(transaction) => transaction@ == untrusted_transaction@ && check_transaction(
                untrusted_transaction@,
                spent_set(old(spent_map)@),
                utxos@,
            ) == Ok::<Set<InputView>, BlockValidationError>(spent_set(final(spent_map)@)),
            Err(fault) => final(spent_map)@ == old(spent_map)@ && check_transaction(
                untrusted_transaction@,
                spent_set(old(spent_map)@),
                utxos@,
            ) == Err::<Set<InputView>, BlockValidationError>(fault),
        },
{
    let ghost wanted = untrusted_transaction@.raw.inputs;
    let ghost spent = spent_set(spent_map@);
    {
        let inputs = untrusted_transaction.inputs();
        let mut at: usize = 0;
        while at < inputs.len()
            invariant
                at <= inputs.len(),
                input_views(inputs@) == wanted,
                wanted == untrusted_transaction@.raw.inputs,
                spent == spent_set(spent_map@),
                spent_map@ == old(spent_map)@,
                forall|before: int| 0 <= before < at ==> !spent.contains(#[trigger] wanted[before]),
            decreases inputs.len() - at,
        {
            assert(input_views(inputs@)[at as int] == inputs[at as int]@);
            if contains_input(spent_map.as_slice(), &inputs[at]) {
                assert(spent.contains(wanted[at as int]));
                assert(spends_any(untrusted_transaction@, spent));
                return Err(BlockValidationError::UTXOSpentMultipleTime);
            }
            at += 1;
        }
    }
    let valid_transaction = match ValidatedTransaction::validate(untrusted_transaction, utxos) {
        Ok(transaction) => transaction,
        Err(fault) => {
            return Err(BlockValidationError::TransactionValidationError(fault));
        },
    };
    let inputs = valid_transaction.inputs();
    let mut at: usize = 0;
    assert(spent_set(spent_map@) =~= spent.union(wanted.take(0).to_set()));
    while at < inputs.len()
        invariant
            at <= inputs.len(),
            input_views(inputs@) == wanted,
            spent == spent_set(old(spent_map)@),
            spent_set(spent_map@) == spent.union(wanted.take(at as int).to_set()),
        decreases inputs.len() - at,
    {
        let ghost before = spent_map@;
        spent_map.push(inputs[at]);
        proof {
            let shorter = wanted.take(at as int);
            let longer = wanted.take(at + 1);
            let listed = input_views(before);
            assert(input_views(spent_map@) == listed.push(wanted[at as int]));
            assert(longer == shorter.push(wanted[at as int]));
            listed.lemma_push_to_set_commute(wanted[at as int]);
            shorter.lemma_push_to_set_commute(wanted[at as int]);
            assert(spent_set(spent_map@) =~= spent.union(longer.to_set()));
        }
        at += 1;
    }
    assert(wanted.take(at as int) == wanted);
    Ok(valid_transaction)
}

/// Checks the transactions of a block in their order. All are judged
/// against the same unspent outputs; an input that two of them spend is a
/// double spend. The first fault ends the check.
pub fn validate_untrusted_transactions(
    untrusted_signed_transactions: Vec<SignedTransaction>,
    utxos: &UTXOMap,
) -> (validated: Result<Vec<ValidatedTransaction>, BlockValidationError>)
    ensures
        match validated {
            Ok(transactions) => validated_views(transactions@) == signed_views(
                untrusted_signed_transactions@,
            ) && check_transactions(signed_views(untrusted_signed_transactions@), utxos@) is Ok,
            Err(fault) => check_transactions(signed_views(untrusted_signed_transactions@), utxos@)
                == Err::<Set<InputView>, BlockValidationError>(fault),
        },
{
    let ghost views = signed_views(untrusted_signed_transactions@);
    let ghost given = untrusted_signed_transactions@;
    let mut spent_map: Vec<Input> = Vec::new();
    let mut validated: Vec<ValidatedTransaction> = Vec::new();
    assert(spent_set(spent_map@) =~= Set::<InputView>::empty());
    assert(views.take(0) == Seq::<SignedTransactionView>::empty());
    for transaction in each: untrusted_signed_transactions.into_iter()
        invariant
            views == signed_views(given),
            each.seq() == given,
            validated@.len() == each.index(),
            validated_views(validated@) == views.take(each.index() as int),
            check_transactions(views.take(each.index() as int), utxos@) == Ok::<
                Set<InputView>,
                BlockValidationError,
            >(spent_set(spent_map@)),
    {
        proof {
            let done = each.index() as int;
            assert(views.take(done + 1).drop_last() == views.take(done));
            lemma_check_transactions_fault_stays(views, done + 1, utxos@);
        }
        match validate_untrusted_transaction(utxos, &mut spent_map, transaction) {
            Ok(valid_transaction) => {
                validated.push(valid_transaction);
                assert(validated_views(validated@) == views.take(each.index() + 1));
            },
            Err(fault) => {
                return Err(fault);
            },
        }
    }
    assert(views.take(given.len() as int) == views);
    Ok(validated)
}

/// The model's view of a run of blocks.
pub open spec fn block_views(blocks: Seq<Block>) -> Seq<BlockView> {
    Seq::new(blocks.len(), |at: int| blocks[at]@)
}

/// Why a block is refused.
#[derive(Clone, Copy, Debug, PartialEq, Eq, Structural)]
pub enum BlockValidationError {
    DifficultyTooLow,
    VersionTooLow,
    WrongPreviousHash,
    WrongHash,
    UTXOSpentMultipleTime,
    TransactionValidationError(TransactionValidationError),
}

/// A header, its digest, and the transactions that the block holds. The
/// recorded digest is always the header's.
pub struct Block {
    data: MiningBlock,
    hash: shared::Hash,
    transactions: Vec<ValidatedTransaction>,
}

impl View for Block {
    type V = BlockView;

    closed spec fn view(&self) -> BlockView {
        BlockView {
            header: self.data@,
            hash: self.hash@,
            transactions: validated_views(self.transactions@),
        }
    }
}

impl Block {
    /// Holds of every block: the recorded digest is the header's digest.
    #[verifier::type_invariant]
    pub open spec fn consistent(self) -> bool {
        self@.well_formed()
    }

    /// The block of a header that meets its own target; none for a header
    /// that does not.
    pub fn try_new(mining_block: &MiningBlock) -> (made: Option<Self>)
        ensures
            mining_block@.meets_target() <==> made is Some,
            made matches Some(block) ==> block@ == mined_view(mining_block@),
    {
        let hash = mining_block.hash();
        if meet_difficulty(&hash, mining_block.get_difficulty()) {
            let block = Block { data: *mining_block, hash, transactions: Vec::new() };
            assert(block@.transactions == Seq::<SignedTransactionView>::empty());
            Some(block)
        } else {
            None
        }
    }

    /// The same block holding `transactions`, if they are what the header
    /// commits to: at least one and fewer than `MERKEL_LIMIT`, with the
    /// header's Merkle root as theirs. Otherwise none.
    pub fn with_transactions(self, transactions: Vec<ValidatedTransaction>) -> (filled: Option<
        Self,
    >)
        ensures
            filled is Some <==> {
                &&& 0 < transactions@.len() < MERKEL_LIMIT
                &&& merkel_root(transaction_digests(transactions@)) == self@.header.merkel_root
            },
            filled matches Some(block) ==> block@ == (BlockView {
                transactions: validated_views(transactions@),
                ..self@
            }),
    {
        proof {
            use_type_invariant(&self);
        }
        if transactions.len() == 0 || transactions.len() >= MERKEL_LIMIT {
            return None;
        }
        let root = get_merkel_hash(transactions.as_slice());
        if !bytes_eq(&root, self.data.get_merkel_root()) {
            return None;
        }
        Some(Block { data: self.data, hash: self.hash, transactions })
    }

    /// Accepts a block that someone else made, or says why not. The
    /// recorded digest must be the header's; the header must fit the chain;
    /// the transactions must pass, in order, against the chain's unspent
    /// outputs, and no two of them may spend one input. Nothing is applied
    /// to the chain.
    pub fn valid_new_block(chain: &BlockChain, untrusted_block: UntrustedBlock) -> (accepted:
        Result<Block, BlockValidationError>)
        ensures
            match accepted {
                Ok(block) => block@ == untrusted_block@ && acceptance(chain@, untrusted_block@)
                    == Ok::<(), BlockValidationError>(()),
                Err(fault) => acceptance(chain@, untrusted_block@) == Err::<
                    (),
                    BlockValidationError,
                >(fault),
            },
    {
        let digest = untrusted_block.data.hash();
        if !bytes_eq(&digest, &untrusted_block.hash) {
            return Err(BlockValidationError::WrongHash);
        }
        match chain.check_compatibility(&untrusted_block.data) {
            Ok(()) => {},
            Err(fault) => {
                return Err(fault);
            },
        }
        let utxo = chain.get_utxos();
        let validated_transactions = match validate_untrusted_transactions(
            untrusted_block.transactions,
            utxo,
        ) {
            Ok(transactions) => transactions,
            Err(fault) => {
                return Err(fault);
            },
        };
        let new_block = Block {
            data: untrusted_block.data,
            hash: untrusted_block.hash,
            transactions: validated_transactions,
        };
        Ok(new_block)
    }

    pub fn get_mining(&self) -> (header: &MiningBlock)
        ensures
            header@ == self@.header,
    {
        &self.data
    }

    pub fn get_hash(&self) -> (hash: &shared::Hash)
        ensures
            hash@ == self@.hash,
    {
        &self.hash
    }

    /// The block's digest in base64, as it is shown to people.
    pub fn hash_text(&self) -> (text: String)
        ensures
            text@ == base64_text(self@.hash),
    {
        base64_standard(&self.hash)
    }

    pub fn get_transactions(&self) -> (transactions: &[ValidatedTransaction])
        ensures
            validated_views(transactions@) == self@.transactions,
    {
        self.transactions.as_slice()
    }
}

} // verus!
