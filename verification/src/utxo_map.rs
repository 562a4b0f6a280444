//! The unspent outputs: which output each (origin digest, position) pair
//! still refers to.

use crate::transactions::transaction::{SignedTransactionView, ValidatedTransaction};
use crate::transactions::transaction_input::{input_views, Input, InputView};
use crate::transactions::transaction_output::{output_views, Output, OutputView};
use vstd::prelude::*;

verus! {

/// The unspent outputs as the model sees them.
pub type Ledger = Map<InputView, OutputView>;

/// Whether the entry at `at` is filed under `key`.
spec fn filed_under(entries: Seq<(Input, Output)>, at: int, key: InputView) -> bool {
    0 <= at < entries.len() && entries[at].0@ == key
}

/// The map that a run of entries with distinct keys stands for.
spec fn entries_map(entries: Seq<(Input, Output)>) -> Ledger {
    Map::new(
        |key: InputView| exists|at: int| filed_under(entries, at, key),
        |key: InputView| entries[choose|at: int| filed_under(entries, at, key)].1@,
    )
}

/// No two entries are filed under one key.
spec fn distinct_keys(entries: Seq<(Input, Output)>) -> bool {
    forall|first: int, second: int|
        0 <= first < second < entries.len() ==> (#[trigger] entries[first]).0@ != (
        #[trigger] entries[second]).0@
}

/// Under distinct keys, each entry is what the map holds for its key.
proof fn lemma_entry_is_mapped(entries: Seq<(Input, Output)>, at: int)
    requires
        distinct_keys(entries),
        0 <= at < entries.len(),
    ensures
        entries_map(entries).contains_key(entries[at].0@),
        entries_map(entries)[entries[at].0@] == entries[at].1@,
{
    let key = entries[at].0@;
    assert(filed_under(entries, at, key));
    let chosen = choose|other: int| filed_under(entries, other, key);
    assert(chosen == at);
}

/// Replacing the entry that is filed under a key keeps the keys distinct
/// and changes what the map holds for that key.
proof fn lemma_replace_entry(entries: Seq<(Input, Output)>, at: int, input: Input, output: Output)
    requires
        distinct_keys(entries),
        filed_under(entries, at, input@),
    ensures
        distinct_keys(entries.update(at, (input, output))),
        entries_map(entries.update(at, (input, output))) == entries_map(entries).insert(
            input@,
            output@,
        ),
{
    let after = entries.update(at, (input, output));
    assert forall|first: int, second: int| 0 <= first < second < after.len() implies (
    #[trigger] after[first]).0@ != (#[trigger] after[second]).0@ by {
        assert(entries[first].0@ != entries[second].0@);
    }
    assert forall|key: InputView|
        entries_map(after).contains_key(key) <==> #[trigger] entries_map(entries).insert(
            input@,
            output@,
        ).contains_key(key) by {
        if entries_map(after).contains_key(key) {
            let found = choose|other: int| filed_under(after, other, key);
            assert(filed_under(entries, found, key));
        }
        if entries_map(entries).insert(input@, output@).contains_key(key) {
            if key == input@ {
                assert(filed_under(after, at, key));
            } else {
                let found = choose|other: int| filed_under(entries, other, key);
                assert(filed_under(after, found, key));
            }
        }
    }
    assert forall|key: InputView| #[trigger]
        entries_map(after).contains_key(key) implies entries_map(after)[key] == entries_map(
        entries,
    ).insert(input@, output@)[key] by {
        let found = choose|other: int| filed_under(after, other, key);
        lemma_entry_is_mapped(after, found);
        if found != at {
            lemma_entry_is_mapped(entries, found);
        }
    }
    assert(entries_map(after) =~= entries_map(entries).insert(input@, output@));
}

/// Adding an entry under a key that no entry is filed under keeps the keys
/// distinct and adds the entry to the map.
proof fn lemma_add_entry(entries: Seq<(Input, Output)>, input: Input, output: Output)
    requires
        distinct_keys(entries),
        !entries_map(entries).contains_key(input@),
    ensures
        distinct_keys(entries.push((input, output))),
        entries_map(entries.push((input, output))) == entries_map(entries).insert(
            input@,
            output@,
        ),
{
    let after = entries.push((input, output));
    let last = entries.len() as int;
    assert forall|first: int, second: int| 0 <= first < second < after.len() implies (
    #[trigger] after[first]).0@ != (#[trigger] after[second]).0@ by {
        if second == last {
            assert(!filed_under(entries, first, input@));
        } else {
            assert(entries[first].0@ != entries[second].0@);
        }
    }
    assert forall|key: InputView|
        entries_map(after).contains_key(key) <==> #[trigger] entries_map(entries).insert(
            input@,
            output@,
        ).contains_key(key) by {
        if entries_map(after).contains_key(key) {
            let found = choose|other: int| filed_under(after, other, key);
            if found != last {
                assert(filed_under(entries, found, key));
            }
        }
        if entries_map(entries).insert(input@, output@).contains_key(key) {
            if key == input@ {
                assert(filed_under(after, last, key));
            } else {
                let found = choose|other: int| filed_under(entries, other, key);
                assert(filed_under(after, found, key));
            }
        }
    }
    assert forall|key: InputView| #[trigger]
        entries_map(after).contains_key(key) implies entries_map(after)[key] == entries_map(
        entries,
    ).insert(input@, output@)[key] by {
        let found = choose|other: int| filed_under(after, other, key);
        lemma_entry_is_mapped(after, found);
        if found != last {
            lemma_entry_is_mapped(entries, found);
        }
    }
    assert(entries_map(after) =~= entries_map(entries).insert(input@, output@));
}

/// Taking out the entry at `at`, with the last entry moved into its place,
/// keeps the keys distinct and removes the entry's key from the map.
proof fn lemma_take_out_entry(
    entries: Seq<(Input, Output)>,
    after: Seq<(Input, Output)>,
    at: int,
)
    requires
        distinct_keys(entries),
        0 <= at < entries.len(),
        after == entries.update(at, entries.last()).drop_last(),
    ensures
        distinct_keys(after),
        entries_map(after) == entries_map(entries).remove(entries[at].0@),
{
    let last = entries.len() - 1;
    let gone = entries[at].0@;
    assert forall|first: int, second: int| 0 <= first < second < after.len() implies (
    #[trigger] after[first]).0@ != (#[trigger] after[second]).0@ by {
        let was_first = if first == at { last } else { first };
        let was_second = if second == at { last } else { second };
        if was_first < was_second {
            assert(entries[was_first].0@ != entries[was_second].0@);
        } else {
            assert(entries[was_second].0@ != entries[was_first].0@);
        }
    }
    assert forall|key: InputView|
        entries_map(after).contains_key(key) <==> #[trigger] entries_map(entries).remove(
            gone,
        ).contains_key(key) by {
        if entries_map(after).contains_key(key) {
            let found = choose|other: int| filed_under(after, other, key);
            let was = if found == at { last } else { found };
            assert(filed_under(entries, was, key));
            if was < at {
                assert(entries[was].0@ != entries[at].0@);
            } else {
                assert(entries[at].0@ != entries[was].0@);
            }
        }
        if entries_map(entries).remove(gone).contains_key(key) {
            let found = choose|other: int| filed_under(entries, other, key);
            let now = if found == last { at } else { found };
            assert(filed_under(after, now, key));
        }
    }
    assert forall|key: InputView| #[trigger]
        entries_map(after).contains_key(key) implies entries_map(after)[key] == entries_map(
        entries,
    ).remove(gone)[key] by {
        let found = choose|other: int| filed_under(after, other, key);
        let was = if found == at { last } else { found };
        lemma_entry_is_mapped(after, found);
        lemma_entry_is_mapped(entries, was);
    }
    assert(entries_map(after) =~= entries_map(entries).remove(gone));
}

/// The outputs of the transaction with digest `tx_id`, each filed under its
/// position in the transaction.
pub open spec fn produced(tx_id: Seq<u8>, outputs: Seq<OutputView>) -> Ledger {
    Map::new(
        |key: InputView| key.tx_id == tx_id && key.tx_output_idx < outputs.len(),
        |key: InputView| outputs[key.tx_output_idx as int],
    )
}

/// The unspent outputs after a transaction has been applied: what its
/// inputs refer to is gone, and its outputs are filed under its recorded
/// digest.
pub open spec fn apply_transaction(ledger: Ledger, transaction: SignedTransactionView) -> Ledger {
    ledger.remove_keys(transaction.raw.inputs.to_set()).union_prefer_right(
        produced(transaction.hash, transaction.raw.outputs),
    )
}

/// The set of unspent outputs, each filed under the input that spends it.
pub struct UTXOMap {
    entries: Vec<(Input, Output)>,
}

impl View for UTXOMap {
    type V = Ledger;

    closed spec fn view(&self) -> Ledger {
        entries_map(self.entries@)
    }
}

impl UTXOMap {
    #[verifier::type_invariant]
    spec fn well_formed(self) -> bool {
        distinct_keys(self.entries@)
    }

    /// No unspent outputs.
    pub fn new() -> (utxos: Self)
        ensures
            utxos@ == Ledger::empty(),
    {
        let utxos = UTXOMap { entries: Vec::new() };
        assert(utxos@ =~= Ledger::empty());
        utxos
    }

    /// Applies a transaction: removes what it consumes, then files what it
    /// produces.
    pub fn update_transaction(&mut self, transaction: &ValidatedTransaction)
        ensures
            final(self)@ == apply_transaction(old(self)@, transaction@),
    {
        self.remove_utxos(transaction.inputs());
        self.add_utxos(transaction.outputs(), transaction.get_hash());
    }

    /// Where `input` is filed, if it is.
    fn position(&self, input: &Input) -> (found: Option<usize>)
        ensures
            match found {
                Some(at) => filed_under(self.entries@, at as int, input@),
                None => !self@.contains_key(input@),
            },
    {
        let mut at: usize = 0;
        while at < self.entries.len()
            invariant
                at <= self.entries.len(),
                forall|before: int|
                    0 <= before < at ==> !filed_under(self.entries@, before, input@),
            decreases self.entries.len() - at,
        {
            if self.entries[at].0 == *input {
                return Some(at);
            }
            at += 1;
        }
        None
    }

    /// Files `output` under `input`, in place of what was filed there.
    fn insert(&mut self, input: Input, output: Output)
        ensures
            final(self)@ == old(self)@.insert(input@, output@),
    {
        proof {
            use_type_invariant(&*self);
        }
        let found = self.position(&input);
        let mut entries: Vec<(Input, Output)> = Vec::new();
        core::mem::swap(&mut self.entries, &mut entries);
        match found {
            Some(at) => {
                proof {
                    lemma_replace_entry(entries@, at as int, input, output);
                }
                entries[at] = (input, output);
            },
            None => {
                proof {
                    lemma_add_entry(entries@, input, output);
                }
                entries.push((input, output));
            },
        }
        core::mem::swap(&mut self.entries, &mut entries);
    }

    /// Removes what is filed under `input`, if anything is.
    fn remove(&mut self, input: &Input)
        ensures
            final(self)@ == old(self)@.remove(input@),
    {
        proof {
            use_type_invariant(&*self);
        }
        let found = self.position(input);
        let mut entries: Vec<(Input, Output)> = Vec::new();
        core::mem::swap(&mut self.entries, &mut entries);
        match found {
            Some(at) => {
                let ghost before = entries@;
                entries.swap_remove(at);
                proof {
                    assert(entries@ == before.update(at as int, before.last()).drop_last());
                    lemma_take_out_entry(before, entries@, at as int);
                }
            },
            None => {
                assert(entries_map(entries@) =~= entries_map(entries@).remove(input@));
            },
        }
        core::mem::swap(&mut self.entries, &mut entries);
    }

    /// Removes what each of `inputs` refers to, where there is such an output.
    pub fn remove_utxos(&mut self, inputs: &[Input])
        ensures
            final(self)@ == old(self)@.remove_keys(input_views(inputs@).to_set()),
    {
        let ghost views = input_views(inputs@);
        let mut at: usize = 0;
        assert(self@ =~= old(self)@.remove_keys(views.take(0).to_set()));
        while at < inputs.len()
            invariant
                at <= inputs.len(),
                views == input_views(inputs@),
                self@ == old(self)@.remove_keys(views.take(at as int).to_set()),
            decreases inputs.len() - at,
        {
            let ghost before = self@;
            self.remove(&inputs[at]);
            proof {
                let shorter = views.take(at as int);
                let longer = views.take(at + 1);
                assert(longer == shorter.push(views[at as int]));
                shorter.lemma_push_to_set_commute(views[at as int]);
                assert(before.remove(views[at as int]) =~= old(self)@.remove_keys(longer.to_set()));
            }
            at += 1;
        }
        assert(views.take(at as int) == views);
    }

    /// Files each of `outputs` under the digest `tx_id` and its position,
    /// in place of what was filed there.
    pub fn add_utxos(&mut self, outputs: &[Output], tx_id: &crate::shared::Hash)
        ensures
            final(self)@ == old(self)@.union_prefer_right(
                produced(tx_id@, output_views(outputs@)),
            ),
    {
        let ghost views = output_views(outputs@);
        let mut at: usize = 0;
        assert(self@ =~= old(self)@.union_prefer_right(produced(tx_id@, views.take(0))));
        while at < outputs.len()
            invariant
                at <= outputs.len(),
                views == output_views(outputs@),
                self@ == old(self)@.union_prefer_right(produced(tx_id@, views.take(at as int))),
            decreases outputs.len() - at,
        {
            let ghost before = self@;
            let utxo_key = Input::from_parts(*tx_id, at);
            self.insert(utxo_key, outputs[at]);
            proof {
                assert(before.insert(utxo_key@, views[at as int]) =~= old(self)@.union_prefer_right(
                    produced(tx_id@, views.take(at + 1)),
                ));
            }
            at += 1;
        }
        assert(views.take(at as int) == views);
    }

    /// The unspent output that `input` refers to, if there is one.
    pub fn try_find_matching_output(&self, input: &Input) -> (found: Option<&Output>)
        ensures
            match found {
                Some(output) => self@.contains_key(input@) && self@[input@] == output@,
                None => !self@.contains_key(input@),
            },
    {
        proof {
            use_type_invariant(self);
        }
        match self.position(input) {
            Some(at) => {
                proof {
                    lemma_entry_is_mapped(self.entries@, at as int);
                }
                Some(&self.entries[at].1)
            },
            None => None,
        }
    }
}

} // verus!
