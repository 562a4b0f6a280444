//! The block header and the search for a nonce that gives it
//! proof-of-work.

use crate::block_chain::{BlockChain, ChainView};
use crate::blocks::block::{Block, BlockView};
use crate::crypto::{sha256, sha256_digest};
use crate::shared;
use crate::shared::{be_bytes, get_now_unix, leading_zero_bits, push_be};
use crate::transactions::transaction::SignedTransactionView;
use core::sync::atomic::{AtomicBool, Ordering};
use vstd::prelude::*;

verus! {

/// A header as the model sees it.
pub struct HeaderView {
    pub version: u32,
    pub difficulty: u32,
    pub previous_hash: Seq<u8>,
    pub merkel_root: Seq<u8>,
    pub nonce: u64,
    pub timestamp: u64,
}

impl HeaderView {
    /// The 88 bytes the digest is taken over: version and difficulty as 4
    /// bytes each, the two digests, nonce and timestamp as 8 bytes each;
    /// every number big-endian.
    pub open spec fn bytes(self) -> Seq<u8> {
        be_bytes(self.version as nat, 4) + be_bytes(self.difficulty as nat, 4) + self.previous_hash
            + self.merkel_root + be_bytes(self.nonce as nat, 8) + be_bytes(
            self.timestamp as nat,
            8,
        )
    }

    /// The header's digest.
    pub open spec fn digest(self) -> Seq<u8> {
        sha256(self.bytes())
    }

    /// Whether the digest has the leading zero bits that the header's own
    /// difficulty asks for.
    pub open spec fn meets_target(self) -> bool {
        leading_zero_bits(self.digest()) >= self.difficulty
    }

    /// The same header with another nonce.
    pub open spec fn with_nonce(self, nonce: u64) -> HeaderView {
        HeaderView { nonce, ..self }
    }

    /// The same header with another timestamp.
    pub open spec fn with_timestamp(self, timestamp: u64) -> HeaderView {
        HeaderView { timestamp, ..self }
    }
}

/// The header of the first block of a chain, but for its timestamp.
pub open spec fn genesis_view() -> HeaderView {
    HeaderView {
        version: 0,
        difficulty: 24,
        previous_hash: Seq::new(32, |at: int| 0u8),
        merkel_root: Seq::new(32, |at: int| 0u8),
        nonce: 0,
        timestamp: 0,
    }
}

/// The header of a block that is to follow the blocks of `chain`: the
/// chain's policy, its tip as predecessor, and nonce 0.
pub open spec fn next_header(chain: ChainView, merkel_root: Seq<u8>, timestamp: u64) -> HeaderView {
    HeaderView {
        version: chain.version,
        difficulty: chain.difficulty,
        previous_hash: chain.tip(),
        merkel_root,
        nonce: 0,
        timestamp,
    }
}

/// A block header.
#[derive(Clone, Copy, Debug)]
pub struct MiningBlock {
    version: u32,
    difficulty: u32,
    previous_hash: shared::Hash,
    merkel_root: shared::Hash,
    nonce: u64,
    timestamp: u64,
}

impl View for MiningBlock {
    type V = HeaderView;

    closed spec fn view(&self) -> HeaderView {
        HeaderView {
            version: self.version,
            difficulty: self.difficulty,
            previous_hash: self.previous_hash@,
            merkel_root: self.merkel_root@,
            nonce: self.nonce,
            timestamp: self.timestamp,
        }
    }
}

impl MiningBlock {
    pub fn new(
        version: u32,
        difficulty: u32,
        previous_hash: shared::Hash,
        merkel_root: shared::Hash,
        nonce: u64,
        timestamp: u64,
    ) -> (header: Self)
        ensures
            header@ == (HeaderView {
                version,
                difficulty,
                previous_hash: previous_hash@,
                merkel_root: merkel_root@,
                nonce,
                timestamp,
            }),
    {
        MiningBlock { version, difficulty, previous_hash, merkel_root, nonce, timestamp }
    }

    /// The digest of the six fields in their order.
    pub fn hash(&self) -> (digest: shared::Hash)
        ensures
            digest@ == self@.digest(),
    {
        let mut hasher: Vec<u8> = Vec::new();
        push_be(&mut hasher, self.version as u64, 4);
        push_be(&mut hasher, self.difficulty as u64, 4);
        hasher.extend_from_slice(self.previous_hash.as_slice());
        hasher.extend_from_slice(self.merkel_root.as_slice());
        push_be(&mut hasher, self.nonce, 8);
        push_be(&mut hasher, self.timestamp, 8);
        assert(hasher@ == self@.bytes());
        sha256_digest(hasher.as_slice())
    }

    pub fn get_difficulty(&self) -> (difficulty: u32)
        ensures
            difficulty == self@.difficulty,
    {
        self.difficulty
    }

    pub fn get_version(&self) -> (version: u32)
        ensures
            version == self@.version,
    {
        self.version
    }

    pub fn get_previous_hash(&self) -> (previous_hash: &shared::Hash)
        ensures
            previous_hash@ == self@.previous_hash,
    {
        &self.previous_hash
    }

    pub fn get_merkel_root(&self) -> (merkel_root: &shared::Hash)
        ensures
            merkel_root@ == self@.merkel_root,
    {
        &self.merkel_root
    }

    pub fn get_nonce(&self) -> (nonce: u64)
        ensures
            nonce == self@.nonce,
    {
        self.nonce
    }

    pub fn get_timestamp(&self) -> (timestamp: u64)
        ensures
            timestamp == self@.timestamp,
    {
        self.timestamp
    }

    /// The genesis header, stamped with the time of the call.
    pub fn genesis() -> (header: Self)
        ensures
            header@ == genesis_view().with_timestamp(header@.timestamp),
    {
        Self::genesis_at(get_now_unix())
    }

    /// The genesis header with the given timestamp.
    pub fn genesis_at(timestamp: u64) -> (header: Self)
        ensures
            header@ == genesis_view().with_timestamp(timestamp),
    {
        let header = MiningBlock {
            version: 0,
            difficulty: 24,
            previous_hash: [0;32],
            merkel_root: [0;32],
            nonce: 0,
            timestamp,
        };
        assert(header@.previous_hash == genesis_view().previous_hash);
        assert(header@.merkel_root == genesis_view().merkel_root);
        header
    }

    /// The header of a block that is to follow the blocks of `chain`,
    /// stamped with the time of the call. The chain's values are copied;
    /// the header does not follow the chain afterwards.
    pub fn from_black_chain(chain: &BlockChain, merkel_root: shared::Hash) -> (header: Self)
        ensures
            header@ == next_header(chain@, merkel_root@, header@.timestamp),
    {
        Self::from_black_chain_at(chain, merkel_root, get_now_unix())
    }

    /// The header of a block that is to follow the blocks of `chain`, with
    /// the given timestamp.
    pub fn from_black_chain_at(
        chain: &BlockChain,
        merkel_root: shared::Hash,
        timestamp: u64,
    ) -> (header: Self)
        ensures
            header@ == next_header(chain@, merkel_root@, timestamp),
    {
        MiningBlock {
            version: chain.get_version(),
            difficulty: chain.get_difficulty(),
            previous_hash: chain.get_previous_hash(),
            merkel_root,
            nonce: 0,
            timestamp,
        }
    }

    /// Sets the nonce and makes the block if the header then meets its
    /// target.
    pub fn try_nonce(&mut self, nonce: u64) -> (mined: Option<Block>)
        ensures
            final(self)@ == old(self)@.with_nonce(nonce),
            final(self)@.meets_target() <==> mined is Some,
            mined matches Some(block) ==> block@ == mined_view(final(self)@),
    {
        self.nonce = nonce;
        Block::try_new(self)
    }

    /// Searches the nonces from 0 up to the largest, in order, and makes
    /// the block for the first under which the header meets its target.
    /// Without such a nonce there is no block.
    pub fn mine(&mut self) -> (mined: Option<Block>)
        ensures
            final(self)@ == old(self)@.with_nonce(final(self)@.nonce),
            forall|nonce: u64|
                nonce < final(self)@.nonce ==> !(#[trigger] old(self)@.with_nonce(
                    nonce,
                )).meets_target(),
            match mined {
                Some(block) => final(self)@.meets_target() && block@ == mined_view(final(self)@),
                None => final(self)@.nonce == u64::MAX && !final(self)@.meets_target(),
            },
    {
        let mut test_nonce: u64 = 0;
        loop
            invariant
                self@.with_nonce(0) == old(self)@.with_nonce(0),
                forall|nonce: u64|
                    nonce < test_nonce ==> !(#[trigger] old(self)@.with_nonce(
                        nonce,
                    )).meets_target(),
            decreases u64::MAX - test_nonce,
        {
            let ghost before = self@;
            let mined = self.try_nonce(test_nonce);
            assert(self@ == old(self)@.with_nonce(test_nonce)) by {
                assert(before.with_nonce(0).with_nonce(test_nonce) == before.with_nonce(
                    test_nonce,
                ));
                assert(old(self)@.with_nonce(0).with_nonce(test_nonce) == old(self)@.with_nonce(
                    test_nonce,
                ));
            }
            if mined.is_some() {
                return mined;
            }
            if test_nonce == u64::MAX {
                return None;
            }
            test_nonce += 1;
        }
    }

    /// One worker's share of a search that several workers make together:
    /// the nonces `first`, `first + stride`, and so on, in order. Before
    /// each nonce the worker reads `stop` and gives up if it is set; the
    /// worker that finds a block sets it. Whatever the other workers do, a
    /// block that comes back has proof-of-work, under the first of the
    /// worker's nonces that gives it. A worker that comes back without a
    /// block has either tried no nonce and left the header as it was, or
    /// left in it the last nonce that it tried, having tried its nonces up
    /// to that one in vain.
    pub fn mine_worker(&mut self, first: u64, stride: u64, stop: &AtomicBool) -> (mined: Option<
        Block,
    >)
        requires
            stride > 0,
        ensures
            final(self)@ == old(self)@.with_nonce(final(self)@.nonce),
            mined matches Some(block) ==> {
                &&& final(self)@.meets_target()
                &&& block@ == mined_view(final(self)@)
                &&& final(self)@.nonce >= first
                &&& (final(self)@.nonce - first) % (stride as int) == 0
                &&& forall|nonce: u64|
                    first <= nonce < final(self)@.nonce && (nonce - first) % (stride as int) == 0
                        ==> !(#[trigger] old(self)@.with_nonce(nonce)).meets_target()
            },
            mined is None ==> {
                ||| final(self)@ == old(self)@
                ||| {
                    &&& final(self)@.nonce >= first
                    &&& (final(self)@.nonce - first) % (stride as int) == 0
                    &&& forall|nonce: u64|
                        first <= nonce <= final(self)@.nonce && (nonce - first) % (stride as int)
                            == 0 ==> !(#[trigger] old(self)@.with_nonce(nonce)).meets_target()
                }
            },
    {
        let mut test_nonce: u64 = first;
        assert(0int % (stride as int) == 0) by (nonlinear_arith)
            requires
                stride > 0,
        ;
        loop
            invariant
                stride > 0,
                self@.with_nonce(0) == old(self)@.with_nonce(0),
                test_nonce >= first,
                (test_nonce - first) % (stride as int) == 0,
                forall|nonce: u64|
                    first <= nonce < test_nonce && (nonce - first) % (stride as int) == 0 ==> !(
                    #[trigger] old(self)@.with_nonce(nonce)).meets_target(),
                self@ == old(self)@ || (first <= self@.nonce < test_nonce && (self@.nonce - first)
                    % (stride as int) == 0),
            decreases u64::MAX - test_nonce,
        {
            if stop_requested(stop) {
                assert(self@ == old(self)@.with_nonce(self@.nonce)) by {
                    assert(self@.with_nonce(0).with_nonce(self@.nonce) == self@);
                    assert(old(self)@.with_nonce(0).with_nonce(self@.nonce) == old(
                        self,
                    )@.with_nonce(self@.nonce));
                }
                return None;
            }
            let ghost before = self@;
            let mined = self.try_nonce(test_nonce);
            assert(self@ == old(self)@.with_nonce(test_nonce)) by {
                assert(before.with_nonce(0).with_nonce(test_nonce) == before.with_nonce(
                    test_nonce,
                ));
                assert(old(self)@.with_nonce(0).with_nonce(test_nonce) == old(self)@.with_nonce(
                    test_nonce,
                ));
            }
            if mined.is_some() {
                request_stop(stop);
                return mined;
            }
            match test_nonce.checked_add(stride) {
                Some(next) => {
                    assert((next - first) % (stride as int) == 0) by (nonlinear_arith)
                        requires
                            (test_nonce - first) % (stride as int) == 0,
                            next == test_nonce + stride,
                            stride > 0,
                    ;
                    assert forall|nonce: u64|
                        first <= nonce < next && (nonce - first) % (stride as int) == 0 implies !(
                    #[trigger] old(self)@.with_nonce(nonce)).meets_target() by {
                        if test_nonce < nonce {
                            lemma_no_multiple_between(
                                test_nonce - first,
                                nonce - first,
                                stride as int,
                            );
                        }
                    }
                    test_nonce = next;
                },
                None => {
                    return None;
                },
            }
        }
    }
}

/// Between a multiple of `stride` and the next there is no multiple.
proof fn lemma_no_multiple_between(multiple: int, between: int, stride: int)
    requires
        stride > 0,
        multiple % stride == 0,
        multiple < between < multiple + stride,
    ensures
        between % stride != 0,
{
    assert(between % stride != 0) by (nonlinear_arith)
        requires
            stride > 0,
            multiple % stride == 0,
            multiple < between < multiple + stride,
    ;
}

/// When each of `workers` workers starts at its own number and strides by
/// `workers`, every nonce is among the nonces of exactly one worker: the
/// one whose number is the nonce's remainder.
pub proof fn lemma_workers_share_the_nonces(workers: u64, nonce: u64, worker: u64)
    requires
        worker < workers,
    ensures
        (worker <= nonce && (nonce - worker) % (workers as int) == 0) <==> worker == nonce
            % workers,
{
    let stride = workers as int;
    let whole = nonce as int;
    let own = worker as int;
    assert((own <= whole && (whole - own) % stride == 0) <==> own == whole % stride)
        by (nonlinear_arith)
        requires
            0 <= own < stride,
            0 <= whole,
    {
        if own == whole % stride {
            assert(whole == stride * (whole / stride) + whole % stride);
            assert((stride * (whole / stride)) % stride == 0);
        }
        if own <= whole && (whole - own) % stride == 0 {
            assert(whole - own == stride * ((whole - own) / stride));
            assert((stride * ((whole - own) / stride) + own) % stride == own);
        }
    }
}

/// Whether the workers of a shared search have been told to stop.
fn stop_requested(stop: &AtomicBool) -> bool {
    stop.load(Ordering::Relaxed)
}

/// Tells the workers of a shared search to stop.
fn request_stop(stop: &AtomicBool) {
    stop.store(true, Ordering::Relaxed);
}

/// The block that a header with proof-of-work makes: the header, its
/// digest, and no transactions yet.
pub open spec fn mined_view(header: HeaderView) -> BlockView {
    BlockView { header, hash: header.digest(), transactions: Seq::<SignedTransactionView>::empty() }
}

} // verus!
