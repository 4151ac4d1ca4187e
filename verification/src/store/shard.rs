//! One shard: entries in the order of their keys.

use vstd::prelude::*;

use crate::buffer::from_slice;
use crate::order::{
    lemma_precedes_strict, lemma_precedes_transitive, order_of, precedes, Order,
};
use crate::store::entry::{
    distinct_keys, entries_map, entry_list, live, Entry, EntryView, SnapshotEntry,
    SnapshotEntryView,
};
use crate::time::Timestamp;

verus! {

/// Entries under their keys, each key at most once.
#[derive(Debug)]
pub struct Shard {
    entries: Vec<(Vec<u8>, Entry)>,
}

/// Whether the keys of a list stand in strictly increasing order.
spec fn increasing(entries: Seq<(Vec<u8>, Entry)>) -> bool {
    forall|i: int, j: int|
        #![trigger entries[i], entries[j]]
        0 <= i < j < entries.len() ==> precedes(entries[i].0@, entries[j].0@)
}

/// Whether a list has an entry under `key`.
spec fn listed(entries: Seq<(Vec<u8>, Entry)>, key: Seq<u8>) -> bool {
    exists|i: int| 0 <= i < entries.len() && (#[trigger] entries[i]).0@ == key
}

/// Where a list has its entry under `key`.
spec fn place(entries: Seq<(Vec<u8>, Entry)>, key: Seq<u8>) -> int {
    choose|i: int| 0 <= i < entries.len() && (#[trigger] entries[i]).0@ == key
}

/// The entries of a list by their keys.
spec fn mapped(entries: Seq<(Vec<u8>, Entry)>) -> Map<Seq<u8>, EntryView> {
    Map::new(|key: Seq<u8>| listed(entries, key), |key: Seq<u8>| entries[place(entries, key)].1@)
}

proof fn lemma_place(entries: Seq<(Vec<u8>, Entry)>, i: int)
    requires
        increasing(entries),
        0 <= i < entries.len(),
    ensures
        mapped(entries).dom().contains(entries[i].0@),
        mapped(entries)[entries[i].0@] == entries[i].1@,
{
    let key = entries[i].0@;
    let found = place(entries, key);
    assert(entries[i].0@ == key);
    assert(0 <= found < entries.len() && entries[found].0@ == key);
    if found < i {
        lemma_precedes_strict(entries[found].0@, entries[i].0@);
    }
    if i < found {
        lemma_precedes_strict(entries[i].0@, entries[found].0@);
    }
}

impl View for Shard {
    type V = Map<Seq<u8>, EntryView>;

    closed spec fn view(&self) -> Map<Seq<u8>, EntryView> {
        mapped(self.entries@)
    }
}

impl Shard {
    /// No key occurs twice, and the keys are in order.
    pub closed spec fn valid(self) -> bool {
        increasing(self.entries@)
    }

    /// An empty shard.
    pub fn new() -> (shard: Self)
        ensures
            shard.valid(),
            shard@ == Map::<Seq<u8>, EntryView>::empty(),
    {
        let shard: Shard = Self { entries: Vec::new() };
        assert(shard@ =~= Map::empty());
        shard
    }

    /// The place of `key`, or the place where it would go.
    fn find(&self, key: &[u8]) -> (found: Result<usize, usize>)
        requires
            self.valid(),
        ensures
            match found {
                Ok(index) => index < self.entries@.len() && self.entries@[index as int].0@ == key@,
                Err(index) => {
                    &&& index <= self.entries@.len()
                    &&& forall|i: int|
                        0 <= i < index ==> precedes((#[trigger] self.entries@[i]).0@, key@)
                    &&& forall|i: int|
                        index <= i < self.entries@.len() ==> precedes(
                            key@,
                            (#[trigger] self.entries@[i]).0@,
                        )
                },
            },
    {
        let mut low: usize = 0;
        let mut high: usize = self.entries.len();
        while low < high
            invariant
                self.valid(),
                low <= high <= self.entries@.len(),
                forall|i: int| 0 <= i < low ==> precedes((#[trigger] self.entries@[i]).0@, key@),
                forall|i: int|
                    high <= i < self.entries@.len() ==> precedes(
                        key@,
                        (#[trigger] self.entries@[i]).0@,
                    ),
            decreases high - low,
        {
            let middle: usize = low + (high - low) / 2;
            match order_of(self.entries[middle].0.as_slice(), key) {
                Order::Same => return Ok(middle),
                Order::Before => {
                    assert forall|i: int| 0 <= i < middle + 1 implies precedes(
                        (#[trigger] self.entries@[i]).0@,
                        key@,
                    ) by {
                        if i < middle {
                            lemma_precedes_transitive(
                                self.entries@[i].0@,
                                self.entries@[middle as int].0@,
                                key@,
                            );
                        }
                    }
                    low = middle + 1;
                },
                Order::After => {
                    assert forall|i: int| middle <= i < self.entries@.len() implies precedes(
                        key@,
                        (#[trigger] self.entries@[i]).0@,
                    ) by {
                        if middle < i {
                            lemma_precedes_transitive(
                                key@,
                                self.entries@[middle as int].0@,
                                self.entries@[i].0@,
                            );
                        }
                    }
                    high = middle;
                },
            }
        }
        Err(low)
    }

    /// The entry under `key`.
    pub fn get(&self, key: &[u8]) -> (entry: Option<&Entry>)
        requires
            self.valid(),
        ensures
            match entry {
                Some(entry) => self@.dom().contains(key@) && self@[key@] == entry@,
                None => !self@.dom().contains(key@),
            },
    {
        match self.find(key) {
            Ok(index) => {
                proof {
                    lemma_place(self.entries@, index as int);
                }
                Some(&self.entries[index].1)
            },
            Err(index) => {
                proof {
                    self.lemma_absent(index as int, key@);
                }
                None
            },
        }
    }

    proof fn lemma_absent(self, index: int, key: Seq<u8>)
        requires
            0 <= index <= self.entries@.len(),
            forall|i: int| 0 <= i < index ==> precedes((#[trigger] self.entries@[i]).0@, key),
            forall|i: int|
                index <= i < self.entries@.len() ==> precedes(
                    key,
                    (#[trigger] self.entries@[i]).0@,
                ),
        ensures
            !self@.dom().contains(key),
    {
        if listed(self.entries@, key) {
            let i = place(self.entries@, key);
            if i < index {
                lemma_precedes_strict(self.entries@[i].0@, key);
            } else {
                lemma_precedes_strict(key, self.entries@[i].0@);
            }
        }
    }

    /// Puts an entry under `key`, in place of the one that was there.
    pub fn insert(&mut self, key: Vec<u8>, entry: Entry)
        requires
            old(self).valid(),
        ensures
            final(self).valid(),
            final(self)@ == old(self)@.insert(key@, entry@),
    {
        let ghost before = self.entries@;
        match self.find(key.as_slice()) {
            Ok(index) => {
                let ghost pair = (key, entry);
                let ghost same = key@;
                self.entries.set(index, (key, entry));
                proof {
                    let after = self.entries@;
                    assert(after == before.update(index as int, pair));
                    assert forall|i: int, j: int| 0 <= i < j < after.len() implies precedes(
                        (#[trigger] after[i]).0@,
                        (#[trigger] after[j]).0@,
                    ) by {
                        assert(precedes(before[i].0@, before[j].0@));
                    }
                    lemma_mapped_update(before, index as int, pair);
                }
            },
            Err(index) => {
                let ghost pair = (key, entry);
                proof {
                    old(self).lemma_absent(index as int, key@);
                }
                self.entries.insert(index, (key, entry));
                proof {
                    let after = self.entries@;
                    assert(after == before.insert(index as int, pair));
                    lemma_mapped_insert(before, index as int, pair);
                }
            },
        }
    }

    /// Takes away the entry under `key`.
    pub fn remove(&mut self, key: &[u8]) -> (entry: Option<Entry>)
        requires
            old(self).valid(),
        ensures
            final(self).valid(),
            final(self)@ == old(self)@.remove(key@),
            match entry {
                Some(entry) => old(self)@.dom().contains(key@) && old(self)@[key@] == entry@,
                None => !old(self)@.dom().contains(key@),
            },
    {
        let ghost before = self.entries@;
        match self.find(key) {
            Ok(index) => {
                proof {
                    lemma_place(before, index as int);
                }
                let (_, entry) = self.entries.remove(index);
                proof {
                    lemma_mapped_remove(before, index as int);
                }
                Some(entry)
            },
            Err(index) => {
                proof {
                    self.lemma_absent(index as int, key@);
                    assert(old(self)@.remove(key@) =~= old(self)@);
                }
                None
            },
        }
    }

    /// Takes the expiration of the entry under `key` away. Says whether it had one.
    pub fn clear_expiration(&mut self, key: &[u8]) -> (cleared: bool)
        requires
            old(self).valid(),
        ensures
            final(self).valid(),
            cleared == (old(self)@.dom().contains(key@) && old(self)@[key@].expires_at is Some),
            final(self)@ == (if cleared {
                old(self)@.insert(
                    key@,
                    EntryView { value: old(self)@[key@].value, expires_at: None },
                )
            } else {
                old(self)@
            }),
    {
        let ghost before = self.entries@;
        match self.find(key) {
            Ok(index) => {
                proof {
                    lemma_place(before, index as int);
                }
                if self.entries[index].1.expires_at().is_none() {
                    return false;
                }
                let (owned, entry) = self.entries.remove(index);
                let mut entry: Entry = entry;
                entry.clear_expiration();
                let ghost pair = (owned, entry);
                self.entries.insert(index, (owned, entry));
                proof {
                    let after = self.entries@;
                    assert(after =~= before.update(index as int, pair));
                    assert forall|i: int, j: int| 0 <= i < j < after.len() implies precedes(
                        (#[trigger] after[i]).0@,
                        (#[trigger] after[j]).0@,
                    ) by {
                        assert(precedes(before[i].0@, before[j].0@));
                    }
                    lemma_mapped_update(before, index as int, pair);
                }
                true
            },
            Err(index) => {
                proof {
                    self.lemma_absent(index as int, key@);
                }
                false
            },
        }
    }

    /// A shard has finitely many entries.
    pub proof fn lemma_finite(self)
        requires
            self.valid(),
        ensures
            self@.dom().finite(),
    {
        lemma_mapped_size(self.entries@);
    }

    /// The number of entries.
    pub fn len(&self) -> (length: usize)
        requires
            self.valid(),
        ensures
            self@.dom().finite(),
            length == self@.dom().len(),
    {
        proof {
            lemma_mapped_size(self.entries@);
        }
        self.entries.len()
    }

    /// Takes every entry away.
    pub fn clear(&mut self)
        ensures
            final(self).valid(),
            final(self)@ == Map::<Seq<u8>, EntryView>::empty(),
    {
        self.entries = Vec::new();
        assert(self@ =~= Map::empty());
    }

    /// Takes the entries away that have expired at `now`, and says how many there were.
    pub fn purge(&mut self, now: Timestamp) -> (removed: usize)
        requires
            old(self).valid(),
        ensures
            final(self).valid(),
            final(self)@ == live(old(self)@, now),
            old(self)@.dom().finite(),
            final(self)@.dom().finite(),
            removed == old(self)@.dom().len() - final(self)@.dom().len(),
    {
        let ghost before = self.entries@;
        let count: usize = self.entries.len();
        let mut backwards: Vec<(Vec<u8>, Entry)> = Vec::new();
        let ghost all = live_run(before, now);
        assert(backwards@.reverse() =~= seq![]);
        assert(all =~= live_run(self.entries@, now) + backwards@.reverse());
        while self.entries.len() > 0
            invariant
                all == live_run(self.entries@, now) + backwards@.reverse(),
            decreases self.entries@.len(),
        {
            let ghost source = self.entries@;
            let ghost kept = backwards@;
            let pair: (Vec<u8>, Entry) = self.entries.pop().unwrap();
            assert(self.entries@ =~= source.drop_last());
            if !pair.1.is_expired_at(now) {
                backwards.push(pair);
                assert(backwards@.reverse() =~= seq![pair] + kept.reverse());
                assert(live_run(source, now) + kept.reverse() =~= live_run(self.entries@, now)
                    + backwards@.reverse());
            }
        }
        assert(self.entries@ =~= seq![]);
        assert(all =~= self.entries@ + backwards@.reverse());
        while backwards.len() > 0
            invariant
                all == self.entries@ + backwards@.reverse(),
            decreases backwards@.len(),
        {
            let ghost source = backwards@;
            let ghost kept = self.entries@;
            let pair: (Vec<u8>, Entry) = backwards.pop().unwrap();
            self.entries.push(pair);
            assert(source.reverse() =~= seq![pair] + backwards@.reverse());
            assert(kept + source.reverse() =~= self.entries@ + backwards@.reverse());
        }
        assert(backwards@.reverse() =~= seq![]);
        assert(self.entries@ =~= all);
        proof {
            lemma_live_run(before, now);
            lemma_mapped_size(before);
            lemma_mapped_size(all);
        }
        count - self.entries.len()
    }

    /// Adds the entries that have not expired at `now` to `output`.
    pub fn collect(&self, now: Timestamp, output: &mut Vec<SnapshotEntry>)
        requires
            self.valid(),
        ensures
            ({
                let start = old(output)@.len() as int;
                let added = entry_list(final(output)@).skip(start);
                &&& start <= final(output)@.len()
                &&& final(output)@.take(start) == old(output)@
                &&& distinct_keys(added)
                &&& entries_map(added) == live(self@, now)
            }),
    {
        let ghost start = output@.len() as int;
        let ghost mut added: Seq<SnapshotEntryView> = seq![];
        let ghost first = output@;
        assert(mapped(self.entries@.take(0)) =~= Map::empty());
        assert(live(mapped(self.entries@.take(0)), now) =~= Map::empty());
        assert(entry_list(output@) =~= entry_list(first) + added);
        for index in 0..self.entries.len()
            invariant
                self.valid(),
                start == first.len(),
                start <= output@.len(),
                output@.take(start) == first,
                entry_list(output@) == entry_list(first) + added,
                distinct_keys(added),
                entries_map(added) == live(mapped(self.entries@.take(index as int)), now),
        {
            let ghost part = self.entries@.take(index as int);
            let ghost pair = self.entries@[index as int];
            let ghost listed_before = output@;
            let (key, entry) = &self.entries[index];
            proof {
                assert(increasing(part));
                assert(self.entries@.take(index + 1) =~= part.insert(index as int, pair));
                lemma_mapped_insert(part, index as int, pair);
                if listed(part, pair.0@) {
                    let i = place(part, pair.0@);
                    lemma_precedes_strict(self.entries@[i].0@, pair.0@);
                }
            }
            if !entry.is_expired_at(now) {
                let item: SnapshotEntry = SnapshotEntry {
                    key: from_slice(key.as_slice()),
                    value: entry.value().clone(),
                    expires_at: entry.expires_at(),
                };
                let ghost earlier = added;
                output.push(item);
                proof {
                    added = added.push(item@);
                    assert(entry_list(output@) =~= entry_list(listed_before).push(item@));
                    assert(entry_list(output@) =~= entry_list(first) + added);
                    assert(output@.take(start) =~= listed_before.take(start));
                    assert(added.drop_last() =~= earlier);
                    crate::store::entry::lemma_entries_map_keys(earlier, item@.key);
                    assert(!entries_map(earlier).dom().contains(item@.key));
                    assert(entries_map(added) =~= live(
                        mapped(part).insert(pair.0@, pair.1@),
                        now,
                    ));
                }
            } else {
                assert(live(mapped(part).insert(pair.0@, pair.1@), now) =~= live(
                    mapped(part),
                    now,
                ));
            }
        }
        assert(self.entries@.take(self.entries@.len() as int) =~= self.entries@);
        assert(entry_list(output@).skip(start) =~= added);
    }
}

/// The pairs of a list that have not expired, in their order.
spec fn live_run(entries: Seq<(Vec<u8>, Entry)>, now: Timestamp) -> Seq<(Vec<u8>, Entry)>
    decreases entries.len(),
{
    if entries.len() == 0 {
        seq![]
    } else if entries.last().1@.expired(now) {
        live_run(entries.drop_last(), now)
    } else {
        live_run(entries.drop_last(), now).push(entries.last())
    }
}

proof fn lemma_live_run(entries: Seq<(Vec<u8>, Entry)>, now: Timestamp)
    requires
        increasing(entries),
    ensures
        increasing(live_run(entries, now)),
        mapped(live_run(entries, now)) == live(mapped(entries), now),
        forall|i: int|
            0 <= i < live_run(entries, now).len() ==> listed(
                entries,
                (#[trigger] live_run(entries, now)[i]).0@,
            ),
        live_run(entries, now).len() <= entries.len(),
    decreases entries.len(),
{
    if entries.len() == 0 {
        assert(mapped(live_run(entries, now)) =~= live(mapped(entries), now));
    } else {
        let shorter = entries.drop_last();
        let last = entries.last();
        let index = shorter.len() as int;
        let kept = live_run(shorter, now);
        lemma_live_run(shorter, now);
        assert(entries =~= shorter.insert(index, last));
        lemma_mapped_insert(shorter, index, last);
        if listed(shorter, last.0@) {
            let i = place(shorter, last.0@);
            lemma_precedes_strict(entries[i].0@, last.0@);
        }
        assert forall|i: int| 0 <= i < kept.len() implies precedes(
            (#[trigger] kept[i]).0@,
            last.0@,
        ) by {
            let j = place(shorter, kept[i].0@);
            assert(listed(shorter, kept[i].0@));
            assert(entries[j].0@ == kept[i].0@);
            assert(precedes(entries[j].0@, entries[index].0@));
        }
        if last.1@.expired(now) {
            assert(live(mapped(entries), now) =~= live(mapped(shorter), now));
        } else {
            assert(kept.push(last) =~= kept.insert(kept.len() as int, last));
            lemma_mapped_insert(kept, kept.len() as int, last);
            assert(live(mapped(entries), now) =~= live(mapped(shorter), now).insert(
                last.0@,
                last.1@,
            ));
        }
        let all = live_run(entries, now);
        assert forall|i: int| 0 <= i < all.len() implies listed(
            entries,
            (#[trigger] all[i]).0@,
        ) by {
            if i < kept.len() {
                assert(all[i] == kept[i]);
                let j = place(shorter, kept[i].0@);
                assert(listed(shorter, kept[i].0@));
                assert(entries[j].0@ == kept[i].0@);
            } else {
                assert(entries[index].0@ == all[i].0@);
            }
        }
    }
}

proof fn lemma_mapped_size(entries: Seq<(Vec<u8>, Entry)>)
    requires
        increasing(entries),
    ensures
        mapped(entries).dom().finite(),
        mapped(entries).dom().len() == entries.len(),
    decreases entries.len(),
{
    if entries.len() == 0 {
        assert(mapped(entries).dom() =~= Set::empty());
    } else {
        let shorter = entries.drop_last();
        let last = entries.last();
        let index = shorter.len() as int;
        lemma_mapped_size(shorter);
        assert(entries =~= shorter.insert(index, last));
        lemma_mapped_insert(shorter, index, last);
        if listed(shorter, last.0@) {
            let i = place(shorter, last.0@);
            lemma_precedes_strict(entries[i].0@, last.0@);
        }
        assert(mapped(entries).dom() =~= mapped(shorter).dom().insert(last.0@));
    }
}

proof fn lemma_mapped_update(before: Seq<(Vec<u8>, Entry)>, index: int, pair: (Vec<u8>, Entry))
    requires
        increasing(before),
        0 <= index < before.len(),
        before[index].0@ == pair.0@,
        increasing(before.update(index, pair)),
    ensures
        mapped(before.update(index, pair)) == mapped(before).insert(pair.0@, pair.1@),
{
    let after = before.update(index, pair);
    let (left, right) = (mapped(after), mapped(before).insert(pair.0@, pair.1@));
    assert forall|key: Seq<u8>| left.dom().contains(key) <==> right.dom().contains(key) by {
        if left.dom().contains(key) {
            let i = place(after, key);
            assert(after[i].0@ == key);
            assert(before[i].0@ == key);
        }
        if right.dom().contains(key) {
            if key == pair.0@ {
                assert(after[index].0@ == key);
            } else {
                let i = place(before, key);
                assert(before[i].0@ == key);
                assert(after[i].0@ == key);
            }
        }
    }
    assert forall|key: Seq<u8>| left.dom().contains(key) implies left[key] == right[key] by {
        let i = place(after, key);
        assert(after[i].0@ == key);
        lemma_place(after, i);
        lemma_place(before, i);
        if i == index {
            assert(key == pair.0@);
        } else {
            lemma_place(after, index);
            if key == pair.0@ {
                if i < index {
                    lemma_precedes_strict(after[i].0@, after[index].0@);
                } else {
                    lemma_precedes_strict(after[index].0@, after[i].0@);
                }
            }
        }
    }
    assert(left =~= right);
}

proof fn lemma_mapped_insert(before: Seq<(Vec<u8>, Entry)>, index: int, pair: (Vec<u8>, Entry))
    requires
        increasing(before),
        0 <= index <= before.len(),
        forall|i: int| 0 <= i < index ==> precedes((#[trigger] before[i]).0@, pair.0@),
        forall|i: int| index <= i < before.len() ==> precedes(pair.0@, (#[trigger] before[i]).0@),
    ensures
        increasing(before.insert(index, pair)),
        mapped(before.insert(index, pair)) == mapped(before).insert(pair.0@, pair.1@),
{
    let after = before.insert(index, pair);
    let (left, right) = (mapped(after), mapped(before).insert(pair.0@, pair.1@));
    assert forall|i: int, j: int| 0 <= i < j < after.len() implies precedes(
        (#[trigger] after[i]).0@,
        (#[trigger] after[j]).0@,
    ) by {
        let old_i = if i < index {
            i
        } else {
            i - 1
        };
        let old_j = if j < index {
            j
        } else {
            j - 1
        };
        if i != index {
            assert(after[i] == before[old_i]);
        }
        if j != index {
            assert(after[j] == before[old_j]);
        }
    }
    assert forall|key: Seq<u8>| left.dom().contains(key) <==> right.dom().contains(key) by {
        if left.dom().contains(key) {
            let i = place(after, key);
            assert(after[i].0@ == key);
            if i < index {
                assert(before[i].0@ == key);
            } else if i > index {
                assert(before[i - 1].0@ == key);
            }
        }
        if right.dom().contains(key) {
            if key == pair.0@ {
                assert(after[index].0@ == key);
            } else {
                let i = place(before, key);
                assert(before[i].0@ == key);
                if i < index {
                    assert(after[i].0@ == key);
                } else {
                    assert(after[i + 1].0@ == key);
                }
            }
        }
    }
    assert forall|key: Seq<u8>| left.dom().contains(key) implies left[key] == right[key] by {
        let i = place(after, key);
        assert(after[i].0@ == key);
        lemma_place(after, i);
        if i < index {
            lemma_place(before, i);
            lemma_precedes_strict(before[i].0@, pair.0@);
        } else if i > index {
            lemma_place(before, i - 1);
            lemma_precedes_strict(pair.0@, before[i - 1].0@);
        }
    }
    assert(left =~= right);
}

proof fn lemma_mapped_remove(before: Seq<(Vec<u8>, Entry)>, index: int)
    requires
        increasing(before),
        0 <= index < before.len(),
    ensures
        increasing(before.remove(index)),
        mapped(before.remove(index)) == mapped(before).remove(before[index].0@),
{
    let after = before.remove(index);
    let gone = before[index].0@;
    let (left, right) = (mapped(after), mapped(before).remove(gone));
    assert forall|i: int, j: int| 0 <= i < j < after.len() implies precedes(
        (#[trigger] after[i]).0@,
        (#[trigger] after[j]).0@,
    ) by {
        let old_i = if i < index {
            i
        } else {
            i + 1
        };
        let old_j = if j < index {
            j
        } else {
            j + 1
        };
        assert(after[i] == before[old_i] && after[j] == before[old_j]);
    }
    assert forall|i: int| 0 <= i < before.len() && i != index implies (
    #[trigger] before[i]).0@ != gone by {
        if i < index {
            lemma_precedes_strict(before[i].0@, gone);
        } else {
            lemma_precedes_strict(gone, before[i].0@);
        }
    }
    assert forall|key: Seq<u8>| left.dom().contains(key) <==> right.dom().contains(key) by {
        if left.dom().contains(key) {
            let i = place(after, key);
            assert(after[i].0@ == key);
            if i < index {
                assert(before[i].0@ == key);
            } else {
                assert(before[i + 1].0@ == key);
            }
        }
        if right.dom().contains(key) {
            let i = place(before, key);
            assert(before[i].0@ == key);
            if i < index {
                assert(after[i].0@ == key);
            } else {
                assert(after[i - 1].0@ == key);
            }
        }
    }
    assert forall|key: Seq<u8>| left.dom().contains(key) implies left[key] == right[key] by {
        let i = place(after, key);
        assert(after[i].0@ == key);
        lemma_place(after, i);
        if i < index {
            lemma_place(before, i);
        } else {
            lemma_place(before, i + 1);
        }
    }
    assert(left =~= right);
}

} // verus!
