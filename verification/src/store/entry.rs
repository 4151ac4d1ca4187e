//! A value with its expiration.

use bytes::Bytes;
use vstd::prelude::*;

use crate::buffer::contents;
use crate::time::Timestamp;

verus! {

/// A stored value, and the instant from which it counts as gone.
#[derive(Clone, Debug, PartialEq, Eq)]
pub struct Entry {
    value: Bytes,
    expires_at: Option<Timestamp>,
}

/// A stored value as a sequence of bytes, and the instant from which it counts as gone.
#[verifier::ext_equal]
pub struct EntryView {
    pub value: Seq<u8>,
    pub expires_at: Option<Timestamp>,
}

impl EntryView {
    /// Whether the value counts as gone at `now`.
    pub open spec fn expired(self, now: Timestamp) -> bool {
        self.expires_at is Some && self.expires_at->0.nanos <= now.nanos
    }
}

impl View for Entry {
    type V = EntryView;

    closed spec fn view(&self) -> EntryView {
        EntryView { value: contents(self.value), expires_at: self.expires_at }
    }
}

impl Entry {
    /// An entry.
    pub fn new(value: Bytes, expires_at: Option<Timestamp>) -> (entry: Self)
        ensures
            entry@ == (EntryView { value: contents(value), expires_at }),
    {
        Self { value, expires_at }
    }

    /// The stored value.
    pub fn value(&self) -> (value: &Bytes)
        ensures
            contents(*value) == self@.value,
    {
        &self.value
    }

    /// The instant from which the value counts as gone.
    pub fn expires_at(&self) -> (instant: Option<Timestamp>)
        ensures
            instant == self@.expires_at,
    {
        self.expires_at
    }

    /// Whether the value counts as gone at `now`.
    pub fn is_expired_at(&self, now: Timestamp) -> (expired: bool)
        ensures
            expired == self@.expired(now),
    {
        match self.expires_at {
            Some(expires_at) => expires_at.nanos <= now.nanos,
            None => false,
        }
    }

    /// Keeps the value for good.
    pub fn clear_expiration(&mut self)
        ensures
            final(self)@ == (EntryView { value: old(self)@.value, expires_at: None }),
    {
        self.expires_at = None;
    }
}

/// An entry with its key, as it goes into a snapshot.
#[derive(Clone, Debug, PartialEq, Eq)]
pub struct SnapshotEntry {
    pub key: Bytes,
    pub value: Bytes,
    pub expires_at: Option<Timestamp>,
}

/// An entry with its key, both as sequences of bytes.
#[verifier::ext_equal]
pub struct SnapshotEntryView {
    pub key: Seq<u8>,
    pub value: Seq<u8>,
    pub expires_at: Option<Timestamp>,
}

impl SnapshotEntryView {
    /// The entry without its key.
    pub open spec fn entry(self) -> EntryView {
        EntryView { value: self.value, expires_at: self.expires_at }
    }
}

impl View for SnapshotEntry {
    type V = SnapshotEntryView;

    open spec fn view(&self) -> SnapshotEntryView {
        SnapshotEntryView {
            key: contents(self.key),
            value: contents(self.value),
            expires_at: self.expires_at,
        }
    }
}

/// The views of entries.
pub open spec fn entry_list(entries: Seq<SnapshotEntry>) -> Seq<SnapshotEntryView> {
    entries.map_values(|entry: SnapshotEntry| entry@)
}

/// Whether no two entries have the same key.
pub open spec fn distinct_keys(list: Seq<SnapshotEntryView>) -> bool {
    forall|i: int, j: int|
        #![trigger list[i], list[j]]
        0 <= i < j < list.len() ==> list[i].key != list[j].key
}

/// The entries by their keys. The last one under a key counts.
pub open spec fn entries_map(list: Seq<SnapshotEntryView>) -> Map<Seq<u8>, EntryView>
    decreases list.len(),
{
    if list.len() == 0 {
        Map::empty()
    } else {
        entries_map(list.drop_last()).insert(list.last().key, list.last().entry())
    }
}

/// The entries that have not expired.
pub open spec fn live(map: Map<Seq<u8>, EntryView>, now: Timestamp) -> Map<Seq<u8>, EntryView> {
    Map::new(
        |key: Seq<u8>| map.dom().contains(key) && !map[key].expired(now),
        |key: Seq<u8>| map[key],
    )
}

/// The keys of the map of a list are those that the list has.
pub proof fn lemma_entries_map_keys(list: Seq<SnapshotEntryView>, key: Seq<u8>)
    ensures
        entries_map(list).dom().contains(key) <==> exists|i: int|
            0 <= i < list.len() && (#[trigger] list[i]).key == key,
    decreases list.len(),
{
    if list.len() > 0 {
        let shorter = list.drop_last();
        lemma_entries_map_keys(shorter, key);
        if entries_map(list).dom().contains(key) {
            if key == list.last().key {
                assert(list[list.len() - 1].key == key);
            } else {
                let i = choose|i: int| 0 <= i < shorter.len() && (#[trigger] shorter[i]).key == key;
                assert(list[i].key == key);
            }
        }
        if exists|i: int| 0 <= i < list.len() && (#[trigger] list[i]).key == key {
            let i = choose|i: int| 0 <= i < list.len() && (#[trigger] list[i]).key == key;
            if i < shorter.len() {
                assert(shorter[i].key == key);
            }
        }
    }
}

/// The map of two lists, one after the other: the second counts where both have a key.
pub proof fn lemma_entries_map_concat(first: Seq<SnapshotEntryView>, second: Seq<SnapshotEntryView>)
    ensures
        entries_map(first + second) == entries_map(first).union_prefer_right(entries_map(second)),
    decreases second.len(),
{
    if second.len() == 0 {
        assert(first + second =~= first);
        assert(entries_map(first).union_prefer_right(entries_map(second)) =~= entries_map(first));
    } else {
        let shorter = second.drop_last();
        lemma_entries_map_concat(first, shorter);
        assert((first + second).drop_last() =~= first + shorter);
        assert((first + second).last() == second.last());
        assert(entries_map(first + second) =~= entries_map(first).union_prefer_right(
            entries_map(second),
        ));
    }
}

} // verus!
