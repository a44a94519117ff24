use super::gen_moves::Move;
use vstd::prelude::*;

verus! {

/// The number of slots of the table that `TranspositionTable::init` makes: 2 to the 27th.
pub const TRANSPOSITION_ENTRIES: usize = 134_217_728;

/// What the score of an entry says of the true score of its position.
#[derive(Clone, Copy, PartialEq, Eq, Structural, Debug)]
pub enum TranspositionEntryType {
    /// The true score is at least the score stored.
    LowerBound,
    /// The true score is at most the score stored.
    UpperBound,
    /// The true score is the score stored.
    Exact,
}

/// What a search has found of a position.
#[derive(Clone, Copy, Debug)]
pub struct TranspositionEntry {
    /// The hash of the position, whole, to tell it from others in the same slot.
    pub key: u64,
    pub entry_type: TranspositionEntryType,
    /// How deep below the position the search went.
    pub depth: i32,
    pub score: i32,
    pub best_move: Option<Move>,
}

/// A table of a fixed number of slots, each empty or holding one entry. The
/// entry of a position stands in the slot of its hash modulo the number of
/// slots, and whatever is stored there replaces what was there.
pub struct TranspositionTable {
    pub entries: Vec<Option<TranspositionEntry>>,
}

/// The slot of the hash `key` in a table of `len` slots.
pub open spec fn slot_of(key: u64, len: nat) -> int {
    key as int % len as int
}

/// What a table with the slots `entries` gives for the hash `key`: the entry in
/// the slot of `key` if there is one and its key is `key`.
pub open spec fn lookup(entries: Seq<Option<TranspositionEntry>>, key: u64) -> Option<
    TranspositionEntry,
> {
    match entries[slot_of(key, entries.len())] {
        Some(entry) => if entry.key == key {
            Some(entry)
        } else {
            None
        },
        None => None,
    }
}

/// The slots after `entry` has been stored for the hash `key`.
pub open spec fn stored(
    entries: Seq<Option<TranspositionEntry>>,
    key: u64,
    entry: TranspositionEntry,
) -> Seq<Option<TranspositionEntry>> {
    entries.update(slot_of(key, entries.len()), Some(entry))
}

/// What has been stored for a hash under the entry's own key is what a lookup
/// of that hash gives, as long as nothing else is stored in its slot.
pub proof fn lemma_lookup_stored(
    entries: Seq<Option<TranspositionEntry>>,
    key: u64,
    entry: TranspositionEntry,
)
    requires
        entries.len() > 0,
        entry.key == key,
    ensures
        lookup(stored(entries, key, entry), key) == Some(entry),
{
}

/// Storing for one hash leaves the lookup of every hash of another slot as it was.
pub proof fn lemma_lookup_other_slot(
    entries: Seq<Option<TranspositionEntry>>,
    key: u64,
    entry: TranspositionEntry,
    other: u64,
)
    requires
        entries.len() > 0,
        slot_of(other, entries.len()) != slot_of(key, entries.len()),
    ensures
        lookup(stored(entries, key, entry), other) == lookup(entries, other),
{
}

impl TranspositionTable {
    /// Whether the table has a slot at all.
    pub open spec fn wf(&self) -> bool {
        self.entries@.len() > 0
    }

    /// A table of `TRANSPOSITION_ENTRIES` empty slots.
    pub fn init() -> (table: TranspositionTable)
        ensures
            table.wf(),
            table.entries@.len() == TRANSPOSITION_ENTRIES,
            forall|i: int| 0 <= i < table.entries@.len() ==> table.entries@[i] is None,
    {
        TranspositionTable::with_entries(TRANSPOSITION_ENTRIES)
    }

    /// A table of `n` empty slots.
    pub fn with_entries(n: usize) -> (table: TranspositionTable)
        requires
            n > 0,
        ensures
            table.wf(),
            table.entries@.len() == n,
            forall|i: int| 0 <= i < table.entries@.len() ==> table.entries@[i] is None,
    {
        let mut entries: Vec<Option<TranspositionEntry>> = Vec::with_capacity(n);
        let mut i: usize = 0;
        while i < n
            invariant
                i <= n,
                entries@.len() == i,
                forall|j: int| 0 <= j < i ==> entries@[j] is None,
            decreases n - i,
        {
            entries.push(None);
            i += 1;
        }
        TranspositionTable { entries }
    }

    /// The slot of the hash `key`.
    fn slot(&self, key: u64) -> (i: usize)
        requires
            self.wf(),
        ensures
            i == slot_of(key, self.entries@.len()),
            i < self.entries@.len(),
    {
        (key % (self.entries.len() as u64)) as usize
    }

    /// The entry stored for the hash `key`, if there is one.
    pub fn get(&self, key: u64) -> (r: Option<TranspositionEntry>)
        requires
            self.wf(),
        ensures
            r == lookup(self.entries@, key),
    {
        if let Some(entry) = self.entries[self.slot(key)] {
            if entry.key == key {
                return Some(entry);
            }
        }
        None
    }

    /// Stores `entry` for the hash `key`, in place of what stood in its slot.
    pub fn set(&mut self, key: u64, entry: TranspositionEntry)
        requires
            old(self).wf(),
        ensures
            final(self).entries@ == stored(old(self).entries@, key, entry),
            final(self).wf(),
            entry.key == key ==> lookup(final(self).entries@, key) == Some(entry),
    {
        let i = self.slot(key);
        self.entries[i] = Some(entry);
    }
}

} // verus!
