//! The chain: the accepted blocks in order, the unspent outputs that they
//! leave, and the policy that new blocks are held to.

use crate::blocks::block::{
    block_views, validated_views, Block, BlockValidationError, BlockView,
};
use crate::blocks::mining_block::{next_header, HeaderView, MiningBlock};
use crate::shared;
use crate::shared::bytes_eq;
use crate::transactions::merkel::{
    get_merkel_hash, merkel_root, transaction_digests, MERKEL_LIMIT,
};
use crate::transactions::transaction::{SignedTransactionView, ValidatedTransaction};
use crate::transactions::transaction_input::InputView;
use crate::utxo_map::{apply_transaction, Ledger, UTXOMap};
use vstd::prelude::*;

verus! {

/// The amount that the coinbase transaction of a block pays.
pub const COIN_BASE_AMOUNT: u64 = 1_000_000;

/// The digest of 32 zero bytes, which stands before the first block.
pub open spec fn zero_digest() -> Seq<u8> {
    Seq::new(32, |at: int| 0u8)
}

/// The digest that the next block must name as its predecessor: that of
/// the last block, or the zero digest before any block.
pub open spec fn tip_of(blocks: Seq<BlockView>) -> Seq<u8> {
    if blocks.len() == 0 {
        zero_digest()
    } else {
        blocks.last().hash
    }
}

/// The unspent outputs after the transactions of `transactions` have been
/// applied in order.
pub open spec fn apply_transactions(
    ledger: Ledger,
    transactions: Seq<SignedTransactionView>,
) -> Ledger
    decreases transactions.len(),
{
    if transactions.len() == 0 {
        ledger
    } else {
        apply_transaction(apply_transactions(ledger, transactions.drop_last()), transactions.last())
    }
}

/// The unspent outputs that a run of blocks leaves, starting from none.
pub open spec fn ledger_after(blocks: Seq<BlockView>) -> Ledger
    decreases blocks.len(),
{
    if blocks.len() == 0 {
        Ledger::empty()
    } else {
        apply_transactions(ledger_after(blocks.drop_last()), blocks.last().transactions)
    }
}

/// Whether `transaction` files an output under `key`.
pub open spec fn produces(transaction: SignedTransactionView, key: InputView) -> bool {
    key.tx_id == transaction.hash && key.tx_output_idx < transaction.raw.outputs.len()
}

/// Whatever is unspent after transactions have been applied was unspent
/// before or is an output of one of them.
pub proof fn lemma_applied_outputs_were_produced(
    ledger: Ledger,
    transactions: Seq<SignedTransactionView>,
    key: InputView,
)
    requires
        apply_transactions(ledger, transactions).contains_key(key),
    ensures
        ({
            let unspent = apply_transactions(ledger, transactions)[key];
            ||| ledger.contains_key(key) && ledger[key] == unspent
            ||| exists|at: int|
                0 <= at < transactions.len() && produces(#[trigger] transactions[at], key)
                    && transactions[at].raw.outputs[key.tx_output_idx as int] == unspent
        }),
    decreases transactions.len(),
{
    if transactions.len() > 0 {
        let last = transactions.len() - 1;
        if produces(transactions[last], key) {
        } else {
            let shorter = transactions.drop_last();
            lemma_applied_outputs_were_produced(ledger, shorter, key);
            let unspent = apply_transactions(ledger, transactions)[key];
            if !(ledger.contains_key(key) && ledger[key] == unspent) {
                let at = choose|at: int|
                    0 <= at < shorter.len() && produces(#[trigger] shorter[at], key)
                        && shorter[at].raw.outputs[key.tx_output_idx as int] == unspent;
                assert(transactions[at] == shorter[at]);
            }
        }
    }
}

/// Every unspent output that a run of blocks leaves is an output of a
/// transaction of one of the blocks, filed under that transaction's
/// recorded digest and the output's position.
pub proof fn lemma_unspent_outputs_were_produced(blocks: Seq<BlockView>, key: InputView)
    requires
        ledger_after(blocks).contains_key(key),
    ensures
        exists|block: int, at: int|
            0 <= block < blocks.len() && 0 <= at < blocks[block].transactions.len() && produces(
                #[trigger] blocks[block].transactions[at],
                key,
            ) && blocks[block].transactions[at].raw.outputs[key.tx_output_idx as int]
                == ledger_after(blocks)[key],
    decreases blocks.len(),
{
    if blocks.len() > 0 {
        let last = blocks.len() - 1;
        let shorter = blocks.drop_last();
        let unspent = ledger_after(blocks)[key];
        lemma_applied_outputs_were_produced(ledger_after(shorter), blocks[last].transactions, key);
        if ledger_after(shorter).contains_key(key) && ledger_after(shorter)[key] == unspent {
            lemma_unspent_outputs_were_produced(shorter, key);
            let (block, at) = choose|block: int, at: int|
                0 <= block < shorter.len() && 0 <= at < shorter[block].transactions.len()
                    && produces(#[trigger] shorter[block].transactions[at], key)
                    && shorter[block].transactions[at].raw.outputs[key.tx_output_idx as int]
                    == unspent;
            assert(blocks[block] == shorter[block]);
            assert(produces(blocks[block].transactions[at], key));
        } else {
            let at = choose|at: int|
                0 <= at < blocks[last].transactions.len() && produces(
                    #[trigger] blocks[last].transactions[at],
                    key,
                ) && blocks[last].transactions[at].raw.outputs[key.tx_output_idx as int]
                    == unspent;
            assert(produces(blocks[last].transactions[at], key));
        }
    }
}

/// A chain as the model sees it.
pub struct ChainView {
    pub blocks: Seq<BlockView>,
    pub utxos: Ledger,
    pub difficulty: u32,
    pub version: u32,
}

impl ChainView {
    /// The digest that the next block must name as its predecessor.
    pub open spec fn tip(self) -> Seq<u8> {
        tip_of(self.blocks)
    }

    /// Whether a header fits the chain: its difficulty and its version must
    /// not be below the chain's, and it must name the tip as its
    /// predecessor. The first of these that fails is the fault.
    pub open spec fn check_compatibility(self, header: HeaderView) -> Result<
        (),
        BlockValidationError,
    > {
        if self.difficulty > header.difficulty {
            Err(BlockValidationError::DifficultyTooLow)
        } else if self.version > header.version {
            Err(BlockValidationError::VersionTooLow)
        } else if self.tip() != header.previous_hash {
            Err(BlockValidationError::WrongPreviousHash)
        } else {
            Ok(())
        }
    }

    /// What holds of every chain: the unspent outputs are what the blocks
    /// leave; every block records its header's digest, names the digest of
    /// the block before it, and is within the chain's policy.
    pub open spec fn well_formed(self) -> bool {
        &&& self.utxos == ledger_after(self.blocks)
        &&& forall|at: int|
            0 <= at < self.blocks.len() ==> {
                let block = #[trigger] self.blocks[at];
                &&& block.well_formed()
                &&& block.header.previous_hash == tip_of(self.blocks.take(at))
                &&& block.header.difficulty >= self.difficulty
                &&& block.header.version >= self.version
            }
    }

    /// The chain after `block` has been applied.
    pub open spec fn update(self, block: BlockView) -> ChainView {
        ChainView {
            blocks: self.blocks.push(block),
            utxos: apply_transactions(self.utxos, block.transactions),
            ..self
        }
    }
}

/// Applying a block that fits a well-formed chain leaves a well-formed
/// chain.
pub proof fn lemma_update_well_formed(chain: ChainView, block: BlockView)
    requires
        chain.well_formed(),
        block.well_formed(),
        chain.check_compatibility(block.header) is Ok,
    ensures
        chain.update(block).well_formed(),
{
    let after = chain.update(block);
    assert(after.blocks.drop_last() == chain.blocks);
    assert forall|at: int| 0 <= at < after.blocks.len() implies {
        let each = #[trigger] after.blocks[at];
        &&& each.well_formed()
        &&& each.header.previous_hash == tip_of(after.blocks.take(at))
        &&& each.header.difficulty >= after.difficulty
        &&& each.header.version >= after.version
    } by {
        if at < chain.blocks.len() {
            assert(after.blocks[at] == chain.blocks[at]);
            assert(after.blocks.take(at) == chain.blocks.take(at));
        } else {
            assert(after.blocks.take(at) == chain.blocks);
        }
    }
}

/// The accepted blocks, the unspent outputs, and the policy.
pub struct BlockChain {
    blocks: Vec<Block>,
    utxos: UTXOMap,
    difficulty: u32,
    version: u32,
}

impl View for BlockChain {
    type V = ChainView;

    closed spec fn view(&self) -> ChainView {
        ChainView {
            blocks: block_views(self.blocks@),
            utxos: self.utxos@,
            difficulty: self.difficulty,
            version: self.version,
        }
    }
}

impl BlockChain {
    /// Holds of every chain.
    #[verifier::type_invariant]
    pub open spec fn holds_together(self) -> bool {
        self@.well_formed()
    }

    /// The empty chain, which asks for difficulty 20 and version 0.
    pub fn new() -> (chain: Self)
        ensures
            chain@ == (ChainView {
                blocks: Seq::empty(),
                utxos: Ledger::empty(),
                difficulty: 20,
                version: 0,
            }),
    {
        Self::with_policy(20, 0)
    }

    /// The empty chain that asks for the given difficulty and version.
    pub fn with_policy(difficulty: u32, version: u32) -> (chain: Self)
        ensures
            chain@ == (ChainView {
                blocks: Seq::empty(),
                utxos: Ledger::empty(),
                difficulty,
                version,
            }),
    {
        let chain = BlockChain { blocks: Vec::new(), difficulty, version, utxos: UTXOMap::new() };
        assert(chain@.blocks == Seq::<BlockView>::empty());
        chain
    }

    /// The number of blocks.
    pub fn len(&self) -> (len: usize)
        ensures
            len == self@.blocks.len(),
    {
        self.blocks.len()
    }

    /// The last block.
    pub fn peak(&self) -> (block: &Block)
        requires
            self@.blocks.len() > 0,
        ensures
            block@ == self@.blocks.last(),
    {
        &self.blocks[self.blocks.len() - 1]
    }

    /// The amount that a coinbase transaction pays.
    pub fn get_coin_base_amount(&self) -> (amount: u64)
        ensures
            amount == COIN_BASE_AMOUNT,
    {
        COIN_BASE_AMOUNT
    }

    /// The header of a block that holds `transactions` and is to follow the
    /// blocks of this chain, stamped with the time of the call.
    pub fn get_mining_block(&self, transactions: &[ValidatedTransaction]) -> (header: MiningBlock)
        requires
            0 < transactions@.len() < MERKEL_LIMIT,
        ensures
            header@ == next_header(
                self@,
                merkel_root(transaction_digests(transactions@)),
                header@.timestamp,
            ),
    {
        let merkel_root = get_merkel_hash(transactions);
        MiningBlock::from_black_chain(self, merkel_root)
    }

    pub fn get_version(&self) -> (version: u32)
        ensures
            version == self@.version,
    {
        self.version
    }

    pub fn get_difficulty(&self) -> (difficulty: u32)
        ensures
            difficulty == self@.difficulty,
    {
        self.difficulty
    }

    /// The digest that the next block must name as its predecessor.
    pub fn get_previous_hash(&self) -> (tip: shared::Hash)
        ensures
            tip@ == self@.tip(),
    {
        if self.blocks.len() == 0 {
            let tip = [0u8;32];
            assert(tip@ == zero_digest());
            tip
        } else {
            *self.peak().get_hash()
        }
    }

    /// Whether a header fits the chain.
    pub fn check_compatibility(&self, mining_block: &MiningBlock) -> (checked: Result<
        (),
        BlockValidationError,
    >)
        ensures
            checked == self@.check_compatibility(mining_block@),
    {
        if self.get_difficulty() > mining_block.get_difficulty() {
            return Err(BlockValidationError::DifficultyTooLow);
        }
        if self.version > mining_block.get_version() {
            return Err(BlockValidationError::VersionTooLow);
        }
        let tip = self.get_previous_hash();
        if !bytes_eq(&tip, mining_block.get_previous_hash()) {
            return Err(BlockValidationError::WrongPreviousHash);
        }
        Ok(())
    }

    pub fn get_utxos(&self) -> (utxos: &UTXOMap)
        ensures
            utxos@ == self@.utxos,
    {
        &self.utxos
    }

    /// Appends `block` and applies its transactions, in order, to the
    /// unspent outputs. The block must fit the chain.
    pub fn update(&mut self, block: Block)
        requires
            old(self)@.check_compatibility(block@.header) is Ok,
        ensures
            final(self)@ == old(self)@.update(block@),
    {
        proof {
            use_type_invariant(&*self);
            use_type_invariant(&block);
        }
        let ghost before = self@;
        let ghost added = block@;
        let mut taken = BlockChain::new();
        core::mem::swap(self, &mut taken);
        let BlockChain { mut blocks, mut utxos, difficulty, version } = taken;
        {
            let transactions = block.get_transactions();
            let mut at: usize = 0;
            while at < transactions.len()
                invariant
                    at <= transactions.len(),
                    validated_views(transactions@) == added.transactions,
                    utxos@ == apply_transactions(before.utxos, added.transactions.take(at as int)),
                decreases transactions.len() - at,
            {
                proof {
                    assert(added.transactions.take(at + 1).drop_last() == added.transactions.take(
                        at as int,
                    ));
                }
                utxos.update_transaction(&transactions[at]);
                at += 1;
            }
            assert(added.transactions.take(at as int) == added.transactions);
        }
        blocks.push(block);
        proof {
            assert(block_views(blocks@) == before.blocks.push(added));
            lemma_update_well_formed(before, added);
        }
        *self = BlockChain { blocks, utxos, difficulty, version };
    }
}

} // verus!
