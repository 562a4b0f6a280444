//! The streaming commitment of an ordered run of digests into one root.
//!
//! Twenty slots hold partial results. A digest that comes in is carried
//! upward through the slots as a carry is in binary addition; when all
//! digests are in, the occupied slots are folded, lowest first, into the
//! root.

use crate::crypto::{sha256, sha256_digest};
use crate::shared;
use crate::transactions::transaction::ValidatedTransaction;
use vstd::arithmetic::power2::{lemma2_to64, lemma_pow2_adds, pow2};
use vstd::prelude::*;

verus! {

/// The number of slots; fewer than `2^BUFFER_SIZE - 1` digests can be
/// committed at once.
pub const BUFFER_SIZE: usize = 20;

/// The bound on the digests committed at once: `2^BUFFER_SIZE - 1`.
pub const MERKEL_LIMIT: usize = 1_048_575;

/// The slots as the model sees them: each empty or holding a digest.
pub type Slots = Seq<Option<Seq<u8>>>;

/// The digest that stands for `left` followed by `right`.
pub open spec fn combine(left: Seq<u8>, right: Seq<u8>) -> Seq<u8> {
    sha256(left + right)
}

/// `BUFFER_SIZE` empty slots.
pub open spec fn empty_slots() -> Slots {
    Seq::new(BUFFER_SIZE as nat, |level: int| None)
}

/// The slots after `carried` arrives at `level`. An empty slot takes it. An
/// occupied slot is combined with it, held value first; the slot is cleared
/// and the result is carried one level up, except in the topmost slot, where
/// the result stays.
pub open spec fn carry_into(slots: Slots, level: int, carried: Seq<u8>) -> Slots
    decreases slots.len() - level,
{
    if level < 0 || level >= slots.len() {
        slots
    } else {
        match slots[level] {
            None => slots.update(level, Some(carried)),
            Some(held) => if level + 1 == slots.len() {
                slots.update(level, Some(combine(held, carried)))
            } else {
                carry_into(slots.update(level, None), level + 1, combine(held, carried))
            },
        }
    }
}

/// The slots after the digests of `digests` have come in, in order.
pub open spec fn accumulate(digests: Seq<Seq<u8>>) -> Slots
    decreases digests.len(),
{
    if digests.len() == 0 {
        empty_slots()
    } else {
        carry_into(accumulate(digests.drop_last()), 0, digests.last())
    }
}

/// The index of the first occupied slot at or above `from`; `slots.len()`
/// when there is none.
pub open spec fn first_occupied_from(slots: Slots, from: int) -> int
    decreases slots.len() - from,
{
    if from >= slots.len() {
        slots.len() as int
    } else if from >= 0 && slots[from] is Some {
        from
    } else {
        first_occupied_from(slots, from + 1)
    }
}

/// The index of the last occupied slot below `below`; 0 when there is none.
pub open spec fn last_occupied_below(slots: Slots, below: int) -> int
    decreases below,
{
    if below <= 0 {
        0
    } else if below <= slots.len() && slots[below - 1] is Some {
        below - 1
    } else {
        last_occupied_below(slots, below - 1)
    }
}

/// Whether any slot is occupied.
pub open spec fn occupied(slots: Slots) -> bool {
    exists|level: int| 0 <= level < slots.len() && (#[trigger] slots[level]) is Some
}

/// Folds the slots `from..to` into `acc`, lowest first. An occupied slot is
/// combined into the accumulator, accumulator first; at an empty slot the
/// accumulator is combined with itself.
pub open spec fn fold_slots(slots: Slots, acc: Seq<u8>, from: int, to: int) -> Seq<u8>
    decreases to - from,
{
    if from >= to {
        acc
    } else {
        let operand = match slots[from] {
            Some(held) => held,
            None => acc,
        };
        fold_slots(slots, combine(acc, operand), from + 1, to)
    }
}

/// The root that occupied slots stand for: the lowest occupied slot's value,
/// folded with the slots strictly between the lowest and the highest
/// occupied slot, then combined with the highest occupied slot's value.
pub open spec fn root_of(slots: Slots) -> Seq<u8> {
    let first = first_occupied_from(slots, 0);
    let last = last_occupied_below(slots, slots.len() as int);
    combine(fold_slots(slots, slots[first]->0, first + 1, last), slots[last]->0)
}

/// The root that commits to `digests` in their order.
pub open spec fn merkel_root(digests: Seq<Seq<u8>>) -> Seq<u8> {
    root_of(accumulate(digests))
}

/// What `first_occupied_from` finds: nothing is occupied before it, and it
/// is occupied unless it is the length.
pub proof fn lemma_first_occupied(slots: Slots, from: int)
    requires
        0 <= from <= slots.len(),
    ensures
        from <= first_occupied_from(slots, from) <= slots.len(),
        forall|level: int|
            from <= level < first_occupied_from(slots, from) ==> (#[trigger] slots[level]) is None,
        first_occupied_from(slots, from) < slots.len() ==> slots[first_occupied_from(
            slots,
            from,
        )] is Some,
    decreases slots.len() - from,
{
    if from < slots.len() && slots[from] is None {
        lemma_first_occupied(slots, from + 1);
    }
}

/// What `last_occupied_below` finds: nothing is occupied after it, and it
/// is occupied if any slot below the bound is.
pub proof fn lemma_last_occupied(slots: Slots, below: int)
    requires
        0 <= below <= slots.len(),
    ensures
        0 <= last_occupied_below(slots, below),
        below > 0 ==> last_occupied_below(slots, below) < below,
        forall|level: int|
            last_occupied_below(slots, below) < level < below ==> (#[trigger] slots[level])
                is None,
        (exists|level: int| 0 <= level < below && (#[trigger] slots[level]) is Some)
            ==> slots[last_occupied_below(slots, below)] is Some,
    decreases below,
{
    if below > 0 && slots[below - 1] is None {
        lemma_last_occupied(slots, below - 1);
    }
}

/// A carry leaves the number of slots as it was and some slot occupied.
pub proof fn lemma_carry_occupies(slots: Slots, level: int, carried: Seq<u8>)
    requires
        0 <= level < slots.len(),
    ensures
        carry_into(slots, level, carried).len() == slots.len(),
        occupied(carry_into(slots, level, carried)),
    decreases slots.len() - level,
{
    let after = carry_into(slots, level, carried);
    match slots[level] {
        None => {
            assert(after[level] is Some);
        },
        Some(held) => {
            if level + 1 == slots.len() {
                assert(after[level] is Some);
            } else {
                lemma_carry_occupies(slots.update(level, None), level + 1, combine(held, carried));
            }
        },
    }
}

/// After at least one digest has come in, there are `BUFFER_SIZE` slots and
/// one of them is occupied.
pub proof fn lemma_accumulate_occupied(digests: Seq<Seq<u8>>)
    ensures
        accumulate(digests).len() == BUFFER_SIZE,
        digests.len() > 0 ==> occupied(accumulate(digests)),
    decreases digests.len(),
{
    if digests.len() > 0 {
        lemma_accumulate_occupied(digests.drop_last());
        lemma_carry_occupies(accumulate(digests.drop_last()), 0, digests.last());
    }
}

/// The number of digests that the slots from `from` upward stand for: an
/// occupied slot at level `l` stands for `2^l` digests.
pub open spec fn weight_from(slots: Slots, from: int) -> nat
    decreases slots.len() - from,
{
    if from < 0 || from >= slots.len() {
        0
    } else if slots[from] is Some {
        pow2(from as nat) + weight_from(slots, from + 1)
    } else {
        weight_from(slots, from + 1)
    }
}

/// Slots that agree from `from` upward weigh the same from there.
proof fn lemma_weight_of_equal_slots(one: Slots, other: Slots, from: int)
    requires
        0 <= from,
        one.len() == other.len(),
        forall|level: int| from <= level < one.len() ==> one[level] == other[level],
    ensures
        weight_from(one, from) == weight_from(other, from),
    decreases one.len() - from,
{
    if from < one.len() {
        lemma_weight_of_equal_slots(one, other, from + 1);
    }
}

/// A carry that arrives at `level` leaves the slots below as they were and
/// adds `2^level` to the weight of the slots from there upward, as long as
/// that weight stays below `2^len`.
pub proof fn lemma_carry_adds_weight(slots: Slots, level: int, carried: Seq<u8>)
    requires
        0 <= level < slots.len(),
        weight_from(slots, level) + pow2(level as nat) < pow2(slots.len()),
    ensures
        carry_into(slots, level, carried).len() == slots.len(),
        forall|below: int|
            0 <= below < level ==> carry_into(slots, level, carried)[below] == slots[below],
        weight_from(carry_into(slots, level, carried), level) == weight_from(slots, level) + pow2(
            level as nat,
        ),
    decreases slots.len() - level,
{
    lemma2_to64();
    lemma_pow2_adds(level as nat, 1);
    assert(pow2((level + 1) as nat) == 2 * pow2(level as nat));
    let after = carry_into(slots, level, carried);
    match slots[level] {
        None => {
            assert(after == slots.update(level, Some(carried)));
            lemma_weight_of_equal_slots(after, slots, level + 1);
        },
        Some(held) => {
            let cleared = slots.update(level, None);
            lemma_weight_of_equal_slots(cleared, slots, level + 1);
            if level + 1 == slots.len() {
                assert(weight_from(slots, level + 1) == 0);
            } else {
                assert(after == carry_into(cleared, level + 1, combine(held, carried)));
                lemma_carry_adds_weight(cleared, level + 1, combine(held, carried));
                assert(after[level] == cleared[level]);
                assert forall|below: int| 0 <= below < level implies after[below]
                    == slots[below] by {
                    assert(after[below] == cleared[below]);
                }
            }
        },
    }
}

/// While no more than `MERKEL_LIMIT` digests have come in, the occupied
/// slots weigh their number, as the binary digits of the count do.
pub proof fn lemma_slots_weigh_the_count(digests: Seq<Seq<u8>>)
    requires
        digests.len() <= MERKEL_LIMIT,
    ensures
        accumulate(digests).len() == BUFFER_SIZE,
        weight_from(accumulate(digests), 0) == digests.len(),
    decreases digests.len(),
{
    lemma2_to64();
    if digests.len() == 0 {
        lemma_weight_of_empty(0);
    } else {
        lemma_slots_weigh_the_count(digests.drop_last());
        lemma_carry_adds_weight(accumulate(digests.drop_last()), 0, digests.last());
    }
}

/// The root of the balanced tree over `digests`, whose number is a power of
/// two: a single digest is its own root, and otherwise the roots of the
/// two halves are combined, the earlier half first.
pub open spec fn tree_root(digests: Seq<Seq<u8>>) -> Seq<u8>
    decreases digests.len(),
{
    if digests.len() <= 1 {
        digests[0]
    } else {
        let half = digests.len() / 2;
        combine(tree_root(digests.take(half as int)), tree_root(digests.skip(half as int)))
    }
}

/// The digests that slot `level` stands for, if it is occupied: `2^level`
/// of them, which follow those of the occupied slots above it.
pub open spec fn slot_digests(slots: Slots, digests: Seq<Seq<u8>>, level: int) -> Seq<Seq<u8>> {
    let start = weight_from(slots, level + 1) as int;
    digests.subrange(start, start + pow2(level as nat))
}

/// Each occupied slot from `from` upward holds the root of the balanced
/// tree over the digests that it stands for.
pub open spec fn holds_tree_roots(slots: Slots, digests: Seq<Seq<u8>>, from: int) -> bool {
    forall|level: int|
        from <= level < slots.len() && (#[trigger] slots[level]) is Some ==> slots[level]
            == Some(
            tree_root(slot_digests(slots, digests, level)),
        )
}

/// The slots from a higher level upward weigh no more.
proof fn lemma_weight_decreases(slots: Slots, from: int, upto: int)
    requires
        0 <= from <= upto,
    ensures
        weight_from(slots, upto) <= weight_from(slots, from),
    decreases upto - from,
{
    if from < upto {
        lemma_weight_decreases(slots, from + 1, upto);
    }
}

/// A carry that arrives at `level` with the root of the tree over the last
/// `2^level` digests, at slots that hold the roots for the digests before
/// these, leaves slots that hold the roots for all the digests.
proof fn lemma_carry_keeps_tree_roots(
    slots: Slots,
    level: int,
    carried: Seq<u8>,
    digests: Seq<Seq<u8>>,
)
    requires
        0 <= level < slots.len(),
        weight_from(slots, level) + pow2(level as nat) == digests.len(),
        digests.len() < pow2(slots.len()),
        carried == tree_root(
            digests.subrange(digests.len() - pow2(level as nat), digests.len() as int),
        ),
        holds_tree_roots(slots, digests, level),
    ensures
        holds_tree_roots(carry_into(slots, level, carried), digests, level),
    decreases slots.len() - level,
{
    lemma2_to64();
    lemma_pow2_adds(level as nat, 1);
    let size = pow2(level as nat);
    assert(pow2((level + 1) as nat) == 2 * size);
    vstd::arithmetic::power2::lemma_pow2_pos(level as nat);
    let after = carry_into(slots, level, carried);
    lemma_carry_adds_weight(slots, level, carried);
    match slots[level] {
        None => {
            assert forall|above: int|
                level <= above < after.len() && (#[trigger] after[above])
                    is Some implies after[above] == Some(
                tree_root(slot_digests(after, digests, above)),
            ) by {
                lemma_weight_of_equal_slots(after, slots, above + 1);
                if above > level {
                    assert(after[above] == slots[above]);
                }
            }
        },
        Some(held) => {
            let cleared = slots.update(level, None);
            lemma_weight_of_equal_slots(cleared, slots, level + 1);
            if level + 1 == slots.len() {
                assert(weight_from(slots, level + 1) == 0);
            } else {
                let start = weight_from(slots, level + 1) as int;
                let both = digests.subrange(start, start + 2 * size);
                assert(both.take(size as int) == digests.subrange(start, start + size));
                assert(both.skip(size as int) == digests.subrange(start + size, start + 2 * size));
                assert(both.len() / 2 == size);
                let combined = combine(held, carried);
                assert(combined == tree_root(both));
                assert forall|above: int|
                    level + 1 <= above < cleared.len() && (#[trigger] cleared[above])
                        is Some implies cleared[above] == Some(
                    tree_root(slot_digests(cleared, digests, above)),
                ) by {
                    lemma_weight_of_equal_slots(cleared, slots, above + 1);
                    assert(cleared[above] == slots[above]);
                }
                lemma_carry_adds_weight(cleared, level + 1, combined);
                lemma_carry_keeps_tree_roots(cleared, level + 1, combined, digests);
                assert(after == carry_into(cleared, level + 1, combined));
                assert(after[level] == cleared[level]);
            }
        },
    }
}

/// While no more than `MERKEL_LIMIT` digests have come in, each occupied
/// slot holds the root of a balanced tree: the topmost occupied slot over
/// the first digests, and each lower one over those that follow, `2^l` of
/// them at level `l`.
pub proof fn lemma_slots_hold_tree_roots(digests: Seq<Seq<u8>>)
    requires
        digests.len() <= MERKEL_LIMIT,
    ensures
        holds_tree_roots(accumulate(digests), digests, 0),
    decreases digests.len(),
{
    lemma2_to64();
    if digests.len() > 0 {
        let earlier = digests.drop_last();
        let slots = accumulate(earlier);
        lemma_slots_hold_tree_roots(earlier);
        lemma_slots_weigh_the_count(earlier);
        assert forall|level: int|
            0 <= level < slots.len() && (#[trigger] slots[level]) is Some implies slots[level]
            == Some(
            tree_root(slot_digests(slots, digests, level)),
        ) by {
            let start = weight_from(slots, level + 1) as int;
            lemma_weight_decreases(slots, 0, level);
            assert(digests.subrange(start, start + pow2(level as nat)) == earlier.subrange(
                start,
                start + pow2(level as nat),
            ));
        }
        assert(digests.subrange(digests.len() - 1, digests.len() as int) == seq![digests.last()]);
        lemma_carry_keeps_tree_roots(slots, 0, digests.last(), digests);
    }
}

/// Empty slots weigh nothing.
proof fn lemma_weight_of_empty(from: int)
    requires
        0 <= from,
    ensures
        weight_from(empty_slots(), from) == 0,
    decreases BUFFER_SIZE - from,
{
    if from < BUFFER_SIZE {
        lemma_weight_of_empty(from + 1);
    }
}

/// The digest of `hash1` followed by `hash2`.
pub fn combine_hash(hash1: &shared::Hash, hash2: &shared::Hash) -> (combined: shared::Hash)
    ensures
        combined@ == combine(hash1@, hash2@),
{
    let mut joined: Vec<u8> = Vec::new();
    joined.extend_from_slice(hash1.as_slice());
    joined.extend_from_slice(hash2.as_slice());
    assert(joined@ == hash1@ + hash2@);
    sha256_digest(joined.as_slice())
}

/// The recorded digests of a run of transactions.
pub open spec fn transaction_digests(transactions: Seq<ValidatedTransaction>) -> Seq<Seq<u8>> {
    Seq::new(transactions.len(), |at: int| transactions[at]@.hash)
}

/// The root that commits to the recorded digests of `transactions`, in
/// their order.
pub fn get_merkel_hash(transactions: &[ValidatedTransaction]) -> (root: shared::Hash)
    requires
        0 < transactions@.len() < MERKEL_LIMIT,
    ensures
        root@ == merkel_root(transaction_digests(transactions@)),
{
    let ghost digests = transaction_digests(transactions@);
    let mut merkel_hash_builder = MerkelHashBuilder::new();
    let mut at: usize = 0;
    assert(digests.take(0) == Seq::<Seq<u8>>::empty());
    while at < transactions.len()
        invariant
            at <= transactions.len(),
            digests == transaction_digests(transactions@),
            merkel_hash_builder@ == accumulate(digests.take(at as int)),
        decreases transactions.len() - at,
    {
        proof {
            assert(digests.take(at + 1).drop_last() == digests.take(at as int));
        }
        merkel_hash_builder.insert_hash(transactions[at].get_hash());
        at += 1;
    }
    proof {
        assert(digests.take(at as int) == digests);
        lemma_accumulate_occupied(digests);
    }
    merkel_hash_builder.resume_hashs()
}

/// The working state of a commitment: `BUFFER_SIZE` slots.
pub struct MerkelHashBuilder {
    buffer: [Option<shared::Hash>; BUFFER_SIZE],
}

impl View for MerkelHashBuilder {
    type V = Slots;

    closed spec fn view(&self) -> Slots {
        Seq::new(
            BUFFER_SIZE as nat,
            |level: int|
                match self.buffer[level] {
                    Some(held) => Some(held@),
                    None => None,
                },
        )
    }
}

impl MerkelHashBuilder {
    /// A builder that has seen no digest.
    pub fn new() -> (builder: Self)
        ensures
            builder@ == empty_slots(),
    {
        MerkelHashBuilder { buffer: [None;BUFFER_SIZE] }
    }

    /// Takes in the next digest.
    pub fn insert_hash(&mut self, hash: &shared::Hash)
        ensures
            final(self)@ == carry_into(old(self)@, 0, hash@),
    {
        let mut carried: shared::Hash = *hash;
        let mut level: usize = 0;
        loop
            invariant
                level < BUFFER_SIZE,
                self@.len() == BUFFER_SIZE,
                carry_into(self@, level as int, carried@) == carry_into(old(self)@, 0, hash@),
            decreases BUFFER_SIZE - level,
        {
            let ghost before = self@;
            match self.buffer[level] {
                None => {
                    self.buffer[level] = Some(carried);
                    assert(self@ == before.update(level as int, Some(carried@)));
                    return ;
                },
                Some(held) => {
                    let combined = combine_hash(&held, &carried);
                    if level + 1 == BUFFER_SIZE {
                        self.buffer[level] = Some(combined);
                        assert(self@ == before.update(level as int, Some(combined@)));
                        return ;
                    }
                    self.buffer[level] = None;
                    assert(self@ == before.update(level as int, None));
                    carried = combined;
                    level += 1;
                },
            }
        }
    }

    /// The index of the lowest occupied slot, `BUFFER_SIZE` if none is.
    pub fn get_first_buffer_index(&self) -> (index: usize)
        ensures
            index == first_occupied_from(self@, 0),
    {
        let mut level: usize = 0;
        while level < BUFFER_SIZE
            invariant
                level <= BUFFER_SIZE,
                self@.len() == BUFFER_SIZE,
                first_occupied_from(self@, 0) == first_occupied_from(self@, level as int),
            decreases BUFFER_SIZE - level,
        {
            if self.buffer[level].is_some() {
                return level;
            }
            level += 1;
        }
        BUFFER_SIZE
    }

    /// The index of the highest occupied slot, 0 if none is.
    pub fn get_last_buffer_index(&self) -> (index: usize)
        ensures
            index == last_occupied_below(self@, BUFFER_SIZE as int),
    {
        let mut below: usize = BUFFER_SIZE;
        while below > 0
            invariant
                below <= BUFFER_SIZE,
                self@.len() == BUFFER_SIZE,
                last_occupied_below(self@, BUFFER_SIZE as int) == last_occupied_below(
                    self@,
                    below as int,
                ),
            decreases below,
        {
            if self.buffer[below - 1].is_some() {
                return below - 1;
            }
            below -= 1;
        }
        0
    }

    /// Folds the occupied slots into the root.
    pub fn resume_hashs(&self) -> (root: shared::Hash)
        requires
            occupied(self@),
        ensures
            root@ == root_of(self@),
    {
        let first_index = self.get_first_buffer_index();
        let final_index = self.get_last_buffer_index();
        proof {
            lemma_first_occupied(self@, 0);
            lemma_last_occupied(self@, BUFFER_SIZE as int);
        }
        let mut hash_accumulator: shared::Hash = self.buffer[first_index].unwrap();
        let mut level: usize = first_index + 1;
        while level < final_index
            invariant
                first_index < level,
                final_index < BUFFER_SIZE,
                self@.len() == BUFFER_SIZE,
                fold_slots(self@, hash_accumulator@, level as int, final_index as int)
                    == fold_slots(
                    self@,
                    self@[first_index as int]->0,
                    first_index + 1,
                    final_index as int,
                ),
            decreases final_index - level,
        {
            hash_accumulator =
            match self.buffer[level] {
                Some(held) => combine_hash(&hash_accumulator, &held),
                None => combine_hash(&hash_accumulator, &hash_accumulator),
            };
            level += 1;
        }
        combine_hash(&hash_accumulator, &self.buffer[final_index].unwrap())
    }
}

} // verus!
