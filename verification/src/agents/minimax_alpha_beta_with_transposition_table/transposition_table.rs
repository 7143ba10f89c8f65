use vstd::prelude::*;

use std::collections::HashMap;

verus! {

broadcast use vstd::std_specs::hash::group_hash_axioms;

/// How a stored value relates to the position's value: exact, or a bound
/// from below or above (the search was cut off).
#[derive(Debug, Clone, Copy, PartialEq, Eq, Structural)]
pub enum NodeType {
    Exact,
    LowerBound,
    UpperBound,
}

/// A stored search result: the value, the remaining depth it was searched
/// to, the kind of bound, and the tree node that stored it (if recorded).
#[derive(Debug, Clone, Copy)]
pub struct TranspositionTableEntry {
    pub value: isize,
    pub depth: usize,
    pub node_type: NodeType,
    pub source_node_id: Option<usize>,
}

/// Search results keyed by Zobrist hash.
pub struct TranspositionTable {
    entries: HashMap<u64, TranspositionTableEntry>,
}

impl View for TranspositionTable {
    type V = Map<u64, TranspositionTableEntry>;

    closed spec fn view(&self) -> Map<u64, TranspositionTableEntry> {
        self.entries@
    }
}

/// The table after storing `entry` under `hash`: an entry searched deeper
/// than `entry` is kept, anything else is replaced.
pub open spec fn stored(table: Map<u64, TranspositionTableEntry>, hash: u64, entry: TranspositionTableEntry) -> Map<u64, TranspositionTableEntry> {
    if table.contains_key(hash) && table[hash].depth > entry.depth {
        table
    } else {
        table.insert(hash, entry)
    }
}

impl TranspositionTable {
    /// An empty table.
    pub fn new() -> (table: Self)
        ensures
            table@ == Map::<u64, TranspositionTableEntry>::empty(),
            table@.dom().finite(),
    {
        Self { entries: HashMap::new() }
    }

    /// The entry stored under `hash`, if any.
    pub fn get(&self, hash: u64) -> (entry: Option<&TranspositionTableEntry>)
        ensures
            match entry {
                Some(e) => self@.contains_key(hash) && *e == self@[hash],
                None => !self@.contains_key(hash),
            },
    {
        self.entries.get(&hash)
    }

    /// Stores `entry` under `hash`, unless the entry already there was
    /// searched deeper.
    pub fn insert(&mut self, hash: u64, entry: TranspositionTableEntry)
        ensures
            final(self)@ == stored(old(self)@, hash, entry),
            final(self)@.dom().finite(),
            old(self)@.len() <= final(self)@.len() <= old(self)@.len() + 1,
            final(self)@.len() == old(self)@.len() + if old(self)@.contains_key(hash) {
                0int
            } else {
                1int
            },
    {
        proof {
            lemma_stored_len(old(self)@, hash, entry);
        }
        match self.entries.get(&hash) {
            Some(existing) => {
                if existing.depth > entry.depth {
                    return;
                }
            },
            None => {},
        }

        self.entries.insert(hash, entry);
    }

    /// The number of stored entries.
    pub fn len(&self) -> (len: usize)
        ensures
            len == self@.len(),
    {
        self.entries.len()
    }

    /// Forgets every entry.
    pub fn clear(&mut self)
        ensures
            final(self)@ == Map::<u64, TranspositionTableEntry>::empty(),
            final(self)@.dom().finite(),
    {
        self.entries.clear();
    }
}

/// Storing into a finite table keeps it finite and adds at most one entry.
pub proof fn lemma_stored_len(table: Map<u64, TranspositionTableEntry>, hash: u64, entry: TranspositionTableEntry)
    requires
        table.dom().finite(),
    ensures
        stored(table, hash, entry).dom().finite(),
        table.len() <= stored(table, hash, entry).len() <= table.len() + 1,
        stored(table, hash, entry).len() == table.len() + if table.contains_key(hash) {
            0int
        } else {
            1int
        },
{
    if !(table.contains_key(hash) && table[hash].depth > entry.depth) {
        assert(table.insert(hash, entry).dom() =~= table.dom().insert(hash));
    }
}

/// Law of the table: after storing `entry` under `hash`, the entry found
/// there was searched at least as deep as `entry`, and it is `entry` itself
/// unless a deeper one was already there; other hashes are untouched.
pub proof fn lemma_insert_keeps_deepest(table: Map<u64, TranspositionTableEntry>, hash: u64, entry: TranspositionTableEntry, other: u64)
    ensures
        stored(table, hash, entry).contains_key(hash),
        stored(table, hash, entry)[hash].depth >= entry.depth,
        !(table.contains_key(hash) && table[hash].depth > entry.depth) ==> stored(table, hash, entry)[hash] == entry,
        other != hash ==> (stored(table, hash, entry).contains_key(other) == table.contains_key(other)),
        other != hash && table.contains_key(other) ==> stored(table, hash, entry)[other] == table[other],
{
}

} // verus!
