//! Single-lookup access to one key's place in a table.
//!
//! `StHash::entry` looks a key up once and records what it found. The entry
//! then acts on the table it was taken from, provided the table has not
//! changed in between (`is_current`).
use vstd::prelude::*;

use crate::hash_type::HashType;
use crate::model::{contains, is_live, lookup, rank_of};
use crate::st::StHash;

verus! {

/// A key that is present, with where and what it is.
pub struct OccupiedEntry {
    rank: usize,
    key: usize,
    value: usize,
    hash: usize,
}

/// A key that is absent, with its hash.
pub struct VacantEntry {
    key: usize,
    hash: usize,
}

/// What `StHash::entry` found for a key.
pub enum Entry {
    /// The key is present.
    Occupied(OccupiedEntry),
    /// The key is absent.
    Vacant(VacantEntry),
}

impl OccupiedEntry {
    /// The rank of the entry.
    pub closed spec fn spec_rank(&self) -> usize {
        self.rank
    }

    /// The stored key.
    pub closed spec fn spec_key(&self) -> usize {
        self.key
    }

    /// The value when the entry was taken.
    pub closed spec fn spec_value(&self) -> usize {
        self.value
    }

    /// The table still holds this entry as it was taken.
    pub open spec fn is_current<H: HashType>(&self, t: &StHash<H>) -> bool {
        &&& t.wf()
        &&& is_live(t@, self.spec_rank() as int)
        &&& t@[self.spec_rank() as int] == Some((self.spec_key(), self.spec_value()))
        &&& self.spec_hash() == t.spec_hash_type().spec_hash(self.spec_key())
    }

    /// The recorded hash of the stored key.
    pub closed spec fn spec_hash(&self) -> usize {
        self.hash
    }

    /// The stored key.
    pub fn key(&self) -> (r: usize)
        ensures
            r == self.spec_key(),
    {
        self.key
    }

    /// The value when the entry was taken.
    pub fn get(&self) -> (r: usize)
        ensures
            r == self.spec_value(),
    {
        self.value
    }

    /// Gives the entry `value` in place and returns the previous one. No rank
    /// is consumed.
    pub fn insert<H: HashType>(self, t: &mut StHash<H>, value: usize) -> (r: usize)
        requires
            self.is_current(old(t)),
        ensures
            final(t).wf(),
            final(t).spec_hash_type() == old(t).spec_hash_type(),
            final(t).spec_clears() == old(t).spec_clears(),
            final(t)@ == old(t)@.update(self.spec_rank() as int, Some((self.spec_key(), value))),
            r == self.spec_value(),
    {
        t.set_value_at(self.rank, value);
        self.value
    }

    /// Removes the entry and returns its value.
    pub fn remove<H: HashType>(self, t: &mut StHash<H>) -> (r: usize)
        requires
            self.is_current(old(t)),
        ensures
            final(t).wf(),
            final(t).spec_hash_type() == old(t).spec_hash_type(),
            final(t).spec_clears() == old(t).spec_clears(),
            final(t)@ == old(t)@.update(self.spec_rank() as int, None),
            r == self.spec_value(),
    {
        t.remove_at(self.rank, self.hash).1
    }

    /// Removes the entry and returns its stored key and value.
    pub fn remove_entry<H: HashType>(self, t: &mut StHash<H>) -> (r: (usize, usize))
        requires
            self.is_current(old(t)),
        ensures
            final(t).wf(),
            final(t).spec_hash_type() == old(t).spec_hash_type(),
            final(t).spec_clears() == old(t).spec_clears(),
            final(t)@ == old(t)@.update(self.spec_rank() as int, None),
            r == (self.spec_key(), self.spec_value()),
    {
        t.remove_at(self.rank, self.hash)
    }
}

impl VacantEntry {
    /// The key that was looked up.
    pub closed spec fn spec_key(&self) -> usize {
        self.key
    }

    /// The table still lacks this key, and the recorded hash is the key's.
    pub open spec fn is_current<H: HashType>(&self, t: &StHash<H>) -> bool {
        &&& t.wf()
        &&& !contains(t.spec_hash_type(), t@, self.spec_key())
        &&& self.spec_hash() == t.spec_hash_type().spec_hash(self.spec_key())
    }

    /// The recorded hash of the key.
    pub closed spec fn spec_hash(&self) -> usize {
        self.hash
    }

    /// The key that was looked up.
    pub fn key(&self) -> (r: usize)
        ensures
            r == self.spec_key(),
    {
        self.key
    }

    /// Gives the key back.
    pub fn into_key(self) -> (r: usize)
        ensures
            r == self.spec_key(),
    {
        self.key
    }

    /// Inserts the key with `value` at the next rank and returns `value`.
    pub fn insert<H: HashType>(self, t: &mut StHash<H>, value: usize) -> (r: usize)
        requires
            self.is_current(old(t)),
        ensures
            final(t).wf(),
            final(t).spec_hash_type() == old(t).spec_hash_type(),
            final(t).spec_clears() == old(t).spec_clears(),
            final(t)@ == old(t)@.push(Some((self.spec_key(), value))),
            r == value,
    {
        t.push_entry(self.key, value, self.hash);
        value
    }
}

impl Entry {
    /// The entry is current for `t`.
    pub open spec fn is_current<H: HashType>(&self, t: &StHash<H>) -> bool {
        match self {
            Entry::Occupied(o) => o.is_current(t),
            Entry::Vacant(v) => v.is_current(t),
        }
    }

    /// The stored key of a present entry, or the looked-up key.
    pub fn key(&self) -> (r: usize)
        ensures
            r == match self {
                Entry::Occupied(o) => o.spec_key(),
                Entry::Vacant(v) => v.spec_key(),
            },
    {
        match self {
            Entry::Occupied(o) => o.key(),
            Entry::Vacant(v) => v.key(),
        }
    }

    /// The value of a present entry; otherwise inserts what `make` returns
    /// and returns that.
    pub fn or_insert_with<H: HashType, F: FnOnce() -> usize>(
        self,
        t: &mut StHash<H>,
        make: F,
    ) -> (r: usize)
        requires
            self.is_current(old(t)),
            make.requires(()),
        ensures
            final(t).wf(),
            final(t).spec_hash_type() == old(t).spec_hash_type(),
            final(t).spec_clears() == old(t).spec_clears(),
            match self {
                Entry::Occupied(o) => final(t)@ == old(t)@ && r == o.spec_value(),
                Entry::Vacant(v) => make.ensures((), r) && final(t)@ == old(t)@.push(
                    Some((v.spec_key(), r)),
                ),
            },
    {
        match self {
            Entry::Occupied(o) => o.get(),
            Entry::Vacant(v) => {
                let value = make();
                v.insert(t, value)
            },
        }
    }

    /// The value of a present entry; otherwise inserts what `make` returns
    /// for the key and returns that.
    pub fn or_insert_with_key<H: HashType, F: FnOnce(usize) -> usize>(
        self,
        t: &mut StHash<H>,
        make: F,
    ) -> (r: usize)
        requires
            self.is_current(old(t)),
            forall|k: usize| make.requires((k,)),
        ensures
            final(t).wf(),
            final(t).spec_hash_type() == old(t).spec_hash_type(),
            final(t).spec_clears() == old(t).spec_clears(),
            match self {
                Entry::Occupied(o) => final(t)@ == old(t)@ && r == o.spec_value(),
                Entry::Vacant(v) => make.ensures((v.spec_key(),), r) && final(t)@ == old(t)@.push(
                    Some((v.spec_key(), r)),
                ),
            },
    {
        match self {
            Entry::Occupied(o) => o.get(),
            Entry::Vacant(v) => {
                let key = v.key();
                let value = make(key);
                v.insert(t, value)
            },
        }
    }

    /// Gives a present entry the value `modify` makes of its current one, in
    /// place; an absent key is left alone. The entry returned is current for
    /// the table afterwards.
    pub fn and_modify<H: HashType, F: FnOnce(usize) -> usize>(
        self,
        t: &mut StHash<H>,
        modify: F,
    ) -> (r: Entry)
        requires
            self.is_current(old(t)),
            forall|v: usize| modify.requires((v,)),
        ensures
            final(t).wf(),
            final(t).spec_hash_type() == old(t).spec_hash_type(),
            final(t).spec_clears() == old(t).spec_clears(),
            r.is_current(final(t)),
            match self {
                Entry::Occupied(o) => match r {
                    Entry::Occupied(o2) => modify.ensures((o.spec_value(),), o2.spec_value())
                        && o2.spec_rank() == o.spec_rank() && o2.spec_key() == o.spec_key()
                        && final(t)@ == old(t)@.update(
                        o.spec_rank() as int,
                        Some((o.spec_key(), o2.spec_value())),
                    ),
                    Entry::Vacant(_) => false,
                },
                Entry::Vacant(v) => final(t)@ == old(t)@ && r == Entry::Vacant(v),
            },
    {
        match self {
            Entry::Occupied(o) => {
                let value = modify(o.value);
                t.set_value_at(o.rank, value);
                Entry::Occupied(OccupiedEntry { rank: o.rank, key: o.key, value, hash: o.hash })
            },
            Entry::Vacant(v) => Entry::Vacant(v),
        }
    }

    /// The value of a present entry; otherwise inserts `default` and returns
    /// it.
    pub fn or_insert<H: HashType>(self, t: &mut StHash<H>, default: usize) -> (r: usize)
        requires
            self.is_current(old(t)),
        ensures
            final(t).wf(),
            final(t).spec_hash_type() == old(t).spec_hash_type(),
            final(t).spec_clears() == old(t).spec_clears(),
            match self {
                Entry::Occupied(o) => final(t)@ == old(t)@ && r == o.spec_value(),
                Entry::Vacant(v) => final(t)@ == old(t)@.push(Some((v.spec_key(), default)))
                    && r == default,
            },
    {
        match self {
            Entry::Occupied(o) => o.get(),
            Entry::Vacant(v) => v.insert(t, default),
        }
    }
}

impl<H: HashType> StHash<H> {
    /// Looks `key` up once and records what was found.
    pub fn entry(&self, key: usize) -> (r: Entry)
        requires
            self.wf(),
        ensures
            r.is_current(self),
            match r {
                Entry::Occupied(o) => contains(self.spec_hash_type(), self@, key) && o.spec_rank()
                    == rank_of(self.spec_hash_type(), self@, key) && lookup(
                    self.spec_hash_type(),
                    self@,
                    key,
                ) == Some(o.spec_value()),
                Entry::Vacant(v) => !contains(self.spec_hash_type(), self@, key) && v.spec_key()
                    == key,
            },
    {
        let (hash, found) = self.find_rank(key);
        match found {
            Some(rank) => match self.get_nth(rank) {
                Some(e) => {
                    proof {
                        self.lemma_found_hash(rank as int, key);
                    }
                    Entry::Occupied(OccupiedEntry { rank, key: e.0, value: e.1, hash })
                },
                None => Entry::Vacant(VacantEntry { key, hash }),
            },
            None => Entry::Vacant(VacantEntry { key, hash }),
        }
    }
}

} // verus!
