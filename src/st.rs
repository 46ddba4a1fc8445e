//! The table engine: an ordered index of slots by insertion rank, and a keyed
//! index from key hashes to the ranks whose keys have that hash.
//!
//! The ordered index is a vector with one slot per rank ever handed out since
//! the last `clear`; a removed entry leaves a dead slot behind, so ranks are
//! never reused and `get_nth` is a direct index. An `insert` on a present
//! key also consumes a rank, which leaves a dead slot from the start. Dead
//! slots are reclaimed only by `clear`, which also resets the rank counter.
//!
//! Lookups always go through the keyed index: one call of the hash
//! function, then equality tests against the ranks in that hash's bucket.
use std::collections::HashMap;

use vstd::layout::size_of;
use vstd::prelude::*;

use crate::hash_type::HashType;
use crate::iter::{InsertRanks, Iter, Keys, Values};
use crate::model::{
    after_insert, after_remove, after_update, contains, holds_key, is_first_live_from,
    is_last_live, is_live, key_at, keys_unique, lemma_first_live_entry, lemma_last_live_entry,
    lemma_live_count_bound, lemma_live_count_update, lemma_live_entries_prefix,
    lemma_live_key_found, lemma_live_ranks_from, lemma_no_live_no_entries, lemma_rank_of_unique,
    live_entries, live_ranks_from, lookup, lookup_entry, none_live_from, rank_of, Slot,
};

verus! {

broadcast use vstd::std_specs::hash::group_hash_axioms;

/// An insertion-ordered hash table over key and value words.
pub struct StHash<H> {
    hash_type: H,
    ordered: Vec<Slot>,
    index: HashMap<usize, Vec<usize>>,
    num_entries: usize,
    clears: u64,
}

impl<H: HashType> View for StHash<H> {
    type V = Seq<Slot>;

    /// The slots by insertion rank.
    closed spec fn view(&self) -> Seq<Slot> {
        self.ordered@
    }
}

/// `a * b`, or `usize::MAX` when the product does not fit.
pub open spec fn saturating_product(a: int, b: int) -> usize {
    if a * b <= usize::MAX {
        (a * b) as usize
    } else {
        usize::MAX
    }
}

/// Multiplies, saturating at `usize::MAX`.
fn saturating_mul(a: usize, b: usize) -> (r: usize)
    ensures
        r == saturating_product(a as int, b as int),
{
    match a.checked_mul(b) {
        Some(p) => p,
        None => usize::MAX,
    }
}

impl<H: HashType> StHash<H> {
    /// The key semantics the table was created with.
    pub closed spec fn spec_hash_type(&self) -> H {
        self.hash_type
    }

    /// How many times the table was cleared (modulo 2^64). Ranks fall back
    /// only through `clear`, so a traversal detects that ranks below its
    /// position hold new entries by watching this count.
    pub closed spec fn spec_clears(&self) -> u64 {
        self.clears
    }

    /// Rank `r` is listed in the bucket of its key's hash.
    closed spec fn indexed(&self, r: int) -> bool {
        let b = self.hash_type.spec_hash(key_at(self.ordered@, r));
        self.index@.contains_key(b) && self.index@[b]@.contains(r as usize)
    }

    /// A bucket entry names a live rank whose key hashes to the bucket.
    closed spec fn bucket_entry_ok(&self, b: usize, r: usize) -> bool {
        is_live(self.ordered@, r as int) && self.hash_type.spec_hash(key_at(self.ordered@, r as int))
            == b
    }

    /// The bucket of hash `b` lists no rank twice and only ranks that belong there.
    closed spec fn bucket_ok(&self, b: usize) -> bool {
        let ranks = self.index@[b]@;
        &&& ranks.no_duplicates()
        &&& forall|i: int| 0 <= i < ranks.len() ==> self.bucket_entry_ok(b, #[trigger] ranks[i])
    }

    /// The two indices agree, keys are unique, and the entry count is exact.
    pub closed spec fn wf(&self) -> bool {
        &&& self.num_entries == live_entries(self.ordered@).len()
        &&& self.ordered@.len() <= usize::MAX
        &&& keys_unique(self.hash_type, self.ordered@)
        &&& forall|r: int| #[trigger] is_live(self.ordered@, r) ==> self.indexed(r)
        &&& forall|b: usize| #[trigger] self.index@.contains_key(b) ==> self.bucket_ok(b)
    }

    /// A well-formed table has unique keys.
    pub proof fn lemma_wf_keys_unique(&self)
        requires
            self.wf(),
        ensures
            keys_unique(self.spec_hash_type(), self@),
    {
    }

    /// An empty table using `hash_type` for its keys.
    pub fn with_hash_type(hash_type: H) -> (r: Self)
        ensures
            r.wf(),
            r@ == Seq::<Slot>::empty(),
            r.spec_hash_type() == hash_type,
            r.spec_clears() == 0,
    {
        StHash {
            hash_type,
            ordered: Vec::new(),
            index: HashMap::new(),
            num_entries: 0,
            clears: 0,
        }
    }

    /// An empty table using `hash_type`, with room for `capacity` entries.
    pub fn with_capacity_and_hash_type(capacity: usize, hash_type: H) -> (r: Self)
        ensures
            r.wf(),
            r@ == Seq::<Slot>::empty(),
            r.spec_hash_type() == hash_type,
            r.spec_clears() == 0,
    {
        StHash {
            hash_type,
            ordered: Vec::with_capacity(capacity),
            index: HashMap::with_capacity(capacity),
            num_entries: 0,
            clears: 0,
        }
    }

    /// The key semantics of this table.
    pub fn hash_type(&self) -> (r: &H)
        ensures
            *r == self.spec_hash_type(),
    {
        &self.hash_type
    }

    /// The number of live entries.
    pub fn len(&self) -> (r: usize)
        requires
            self.wf(),
        ensures
            r == live_entries(self@).len(),
    {
        self.num_entries
    }

    /// Whether the table has no live entries.
    pub fn is_empty(&self) -> (r: bool)
        requires
            self.wf(),
        ensures
            r == (live_entries(self@).len() == 0),
    {
        self.num_entries == 0
    }

    /// The rank the next first-time insertion will get.
    pub fn insert_counter(&self) -> (r: usize)
        ensures
            r == self@.len(),
    {
        self.ordered.len()
    }

    /// How many times the table was cleared (modulo 2^64).
    pub fn clears(&self) -> (r: u64)
        ensures
            r == self.spec_clears(),
    {
        self.clears
    }

    /// The rank found for `key` holds a key that hashes as `key` does.
    pub(crate) proof fn lemma_found_hash(&self, q: int, key: usize)
        requires
            contains(self.spec_hash_type(), self@, key),
            rank_of(self.spec_hash_type(), self@, key) == q,
        ensures
            self.spec_hash_type().spec_hash(key_at(self@, q)) == self.spec_hash_type().spec_hash(
                key,
            ),
    {
        self.hash_type.lemma_equivalence();
        assert(holds_key(self.hash_type, self@, q, key));
    }

    /// The hash of `key` (computed once), and the rank of the live entry whose
    /// key equals `key`, if any.
    pub(crate) fn find_rank(&self, key: usize) -> (r: (usize, Option<usize>))
        requires
            self.wf(),
        ensures
            r.0 == self.spec_hash_type().spec_hash(key),
            match r.1 {
                Some(q) => contains(self.spec_hash_type(), self@, key) && rank_of(
                    self.spec_hash_type(),
                    self@,
                    key,
                ) == q as int && is_live(self@, q as int),
                None => !contains(self.spec_hash_type(), self@, key),
            },
    {
        let hk = self.hash_type.hash(key);
        proof {
            self.hash_type.lemma_equivalence();
        }
        match self.index.get(&hk) {
            None => {
                proof {
                    if contains(self.hash_type, self@, key) {
                        let q = choose|q: int| holds_key(self.hash_type, self@, q, key);
                        assert(is_live(self.ordered@, q));
                        assert(self.indexed(q));
                    }
                }
                (hk, None)
            },
            Some(bucket) => {
                let mut i: usize = 0;
                while i < bucket.len()
                    invariant
                        self.wf(),
                        self.index@.contains_key(hk),
                        bucket@ == self.index@[hk]@,
                        hk == self.hash_type.spec_hash(key),
                        0 <= i <= bucket@.len(),
                        forall|j: int|
                            0 <= j < i ==> !holds_key(
                                self.hash_type,
                                self@,
                                #[trigger] bucket@[j] as int,
                                key,
                            ),
                    decreases bucket@.len() - i,
                {
                    let q = bucket[i];
                    proof {
                        assert(self.bucket_ok(hk));
                        assert(self.bucket_entry_ok(hk, bucket@[i as int]));
                    }
                    let slot = self.ordered[q];
                    match slot {
                        Some(entry) => {
                            if self.hash_type.equal(entry.0, key) {
                                proof {
                                    assert(self@ == self.ordered@);
                                    assert(key_at(self@, q as int) == entry.0);
                                    assert(holds_key(self.hash_type, self@, q as int, key));
                                    lemma_rank_of_unique(self.hash_type, self@, q as int, key);
                                }
                                return (hk, Some(q));
                            }
                        },
                        None => {},
                    }
                    i = i + 1;
                }
                proof {
                    if contains(self.hash_type, self@, key) {
                        let q = choose|q: int| holds_key(self.hash_type, self@, q, key);
                        assert(is_live(self.ordered@, q));
                        assert(self.indexed(q));
                        assert(self.hash_type.spec_equal(key_at(self@, q), key));
                        let j = choose|j: int| 0 <= j < bucket@.len() && bucket@[j] == q as usize;
                        assert(!holds_key(self.hash_type, self@, bucket@[j] as int, key));
                    }
                }
                (hk, None)
            },
        }
    }

    /// Whether some live entry has a key equal to `key`.
    pub fn contains_key(&self, key: usize) -> (r: bool)
        requires
            self.wf(),
        ensures
            r == contains(self.spec_hash_type(), self@, key),
    {
        self.find_rank(key).1.is_some()
    }

    /// The value stored for `key`.
    pub fn get(&self, key: usize) -> (r: Option<usize>)
        requires
            self.wf(),
        ensures
            r == lookup(self.spec_hash_type(), self@, key),
    {
        match self.find_rank(key).1 {
            Some(q) => match self.ordered[q] {
                Some(entry) => Some(entry.1),
                None => None,
            },
            None => None,
        }
    }

    /// What `get_key_value` returns for `key`.
    pub open spec fn get_key_value_spec(&self, key: usize) -> Option<(usize, usize)> {
        lookup_entry(self.spec_hash_type(), self@, key)
    }

    /// The stored key (the table's own representative, which may differ from
    /// `key` while being equal to it) and its value.
    pub fn get_key_value(&self, key: usize) -> (r: Option<(usize, usize)>)
        requires
            self.wf(),
        ensures
            r == lookup_entry(self.spec_hash_type(), self@, key),
    {
        match self.find_rank(key).1 {
            Some(q) => self.ordered[q],
            None => None,
        }
    }

    /// Appends a new live entry for an absent key whose hash is `hk`.
    pub(crate) fn push_entry(&mut self, key: usize, value: usize, hk: usize)
        requires
            old(self).wf(),
            !contains(old(self).spec_hash_type(), old(self)@, key),
            hk == old(self).spec_hash_type().spec_hash(key),
        ensures
            final(self).wf(),
            final(self)@ == old(self)@.push(Some((key, value))),
            final(self).spec_hash_type() == old(self).spec_hash_type(),
            final(self).spec_clears() == old(self).spec_clears(),
    {
        let ghost s0 = self.ordered@;
        let ghost i0 = self.index@;
        let ghost h = self.hash_type;
        proof {
            h.lemma_equivalence();
            lemma_live_count_bound(s0);
        }
        let q = self.ordered.len();
        self.ordered.push(Some((key, value)));
        let n = self.ordered.len();
        let mut bucket = match self.index.remove(&hk) {
            Some(b) => b,
            None => Vec::new(),
        };
        let ghost b0 = bucket@;
        bucket.push(q);
        self.index.insert(hk, bucket);
        self.num_entries = self.num_entries + 1;
        proof {
            let s1 = self.ordered@;
            assert(s1.drop_last() =~= s0);
            assert(live_entries(s1) == live_entries(s0).push((key, value)));
            assert(n == s1.len());
            assert forall|r: int| is_live(s0, r) implies s1[r] == s0[r] && r < q by {}
            assert(i0.contains_key(hk) ==> b0 == i0[hk]@);
            assert(!i0.contains_key(hk) ==> b0 == Seq::<usize>::empty());
            assert forall|r1: int, r2: int|
                #![trigger is_live(s1, r1), is_live(s1, r2)]
                is_live(s1, r1) && is_live(s1, r2) && r1 != r2 implies !h.spec_equal(
                key_at(s1, r1),
                key_at(s1, r2),
            ) by {
                if r1 == q {
                    assert(!holds_key(h, s0, r2, key));
                } else if r2 == q {
                    assert(!holds_key(h, s0, r1, key));
                } else {
                    assert(is_live(s0, r1) && is_live(s0, r2));
                }
            }
            assert forall|b: usize| #[trigger] i0.contains_key(b) && b != hk implies forall|i: int|
                0 <= i < i0[b]@.len() ==> self.bucket_entry_ok(b, #[trigger] i0[b]@[i]) by {
                assert(old(self).bucket_ok(b));
                assert forall|i: int| 0 <= i < i0[b]@.len() implies self.bucket_entry_ok(
                    b,
                    #[trigger] i0[b]@[i],
                ) by {
                    assert(old(self).bucket_entry_ok(b, i0[b]@[i]));
                }
            }
            assert forall|i: int| 0 <= i < b0.len() implies is_live(s0, #[trigger] b0[i] as int)
                && h.spec_hash(key_at(s0, b0[i] as int)) == hk by {
                assert(old(self).bucket_ok(hk));
                assert(old(self).bucket_entry_ok(hk, b0[i]));
            }
            let b1 = b0.push(q);
            assert(self.index@[hk]@ == b1);
            assert forall|i: int| 0 <= i < b1.len() implies self.bucket_entry_ok(
                hk,
                #[trigger] b1[i],
            ) by {
                if i < b0.len() {
                    assert(b1[i] == b0[i]);
                    assert(is_live(s0, b0[i] as int));
                }
            }
            assert(b0.no_duplicates()) by {
                if i0.contains_key(hk) {
                    assert(old(self).bucket_ok(hk));
                }
            }
            assert forall|i: int, j: int| 0 <= i < j < b1.len() implies b1[i] != b1[j] by {
                if j == b0.len() {
                    assert(is_live(s0, b0[i] as int));
                } else {
                    assert(b0[i] != b0[j]);
                }
            }
            assert(b1.no_duplicates());
            assert(self.bucket_ok(hk));
            assert forall|b: usize| #[trigger] self.index@.contains_key(b) implies self.bucket_ok(
                b,
            ) by {
                if b != hk {
                    assert(i0.contains_key(b));
                    assert(old(self).bucket_ok(b));
                    assert(self.index@[b] == i0[b]);
                }
            }
            assert forall|r: int| #[trigger] is_live(s1, r) implies self.indexed(r) by {
                if r == q {
                    assert(b1[b0.len() as int] == q);
                } else {
                    assert(is_live(s0, r));
                    assert(old(self).indexed(r));
                    let br = h.spec_hash(key_at(s0, r));
                    assert(key_at(s1, r) == key_at(s0, r));
                    if br == hk {
                        let k = choose|k: int| 0 <= k < b0.len() && b0[k] == r as usize;
                        assert(b1[k] == r as usize);
                    } else {
                        assert(self.index@[br] == i0[br]);
                    }
                }
            }
        }
    }

    /// When the keyed index is untouched and every rank keeps its liveness
    /// and the hash of its key, the keyed index still agrees with the slots.
    proof fn lemma_index_kept(before: Self, after: Self)
        requires
            before.wf(),
            after.index@ == before.index@,
            after.hash_type == before.hash_type,
            forall|r: int| #[trigger]
                is_live(after.ordered@, r) == is_live(before.ordered@, r),
            forall|r: int|
                is_live(before.ordered@, r) ==> #[trigger] before.hash_type.spec_hash(
                    key_at(after.ordered@, r),
                ) == before.hash_type.spec_hash(key_at(before.ordered@, r)),
        ensures
            forall|r: int| #[trigger] is_live(after.ordered@, r) ==> after.indexed(r),
            forall|b: usize| #[trigger] after.index@.contains_key(b) ==> after.bucket_ok(b),
    {
        assert forall|r: int| #[trigger] is_live(after.ordered@, r) implies after.indexed(r) by {
            assert(is_live(before.ordered@, r));
            assert(before.indexed(r));
        }
        assert forall|b: usize| #[trigger] after.index@.contains_key(b) implies after.bucket_ok(
            b,
        ) by {
            assert(before.bucket_ok(b));
            let ranks = after.index@[b]@;
            assert forall|i: int| 0 <= i < ranks.len() implies after.bucket_entry_ok(
                b,
                #[trigger] ranks[i],
            ) by {
                assert(before.bucket_entry_ok(b, ranks[i]));
                assert(is_live(before.ordered@, ranks[i] as int));
            }
        }
    }

    /// Gives the live entry at rank `q` the value `value`, keeping its key.
    pub(crate) fn set_value_at(&mut self, q: usize, value: usize)
        requires
            old(self).wf(),
            is_live(old(self)@, q as int),
        ensures
            final(self).wf(),
            final(self)@ == old(self)@.update(q as int, Some((key_at(old(self)@, q as int), value))),
            final(self).spec_hash_type() == old(self).spec_hash_type(),
            final(self).spec_clears() == old(self).spec_clears(),
    {
        let ghost s0 = self.ordered@;
        let ghost h = self.hash_type;
        let key = match self.ordered[q] {
            Some(e) => e.0,
            None => 0,
        };
        self.ordered.set(q, Some((key, value)));
        proof {
            let s1 = self.ordered@;
            lemma_live_count_update(s0, q as int, Some((key, value)));
            assert forall|r: int| 0 <= r < s1.len() implies (is_live(s1, r) == is_live(s0, r)
                && (is_live(s1, r) ==> key_at(s1, r) == key_at(s0, r))) by {}
            assert forall|r1: int, r2: int|
                #![trigger is_live(s1, r1), is_live(s1, r2)]
                is_live(s1, r1) && is_live(s1, r2) && r1 != r2 implies !h.spec_equal(
                key_at(s1, r1),
                key_at(s1, r2),
            ) by {
                assert(is_live(s0, r1) && is_live(s0, r2));
            }
            Self::lemma_index_kept(*old(self), *self);
        }
    }

    /// Consumes a rank without creating an entry.
    fn push_dead_slot(&mut self)
        requires
            old(self).wf(),
        ensures
            final(self).wf(),
            final(self)@ == old(self)@.push(None),
            final(self).spec_hash_type() == old(self).spec_hash_type(),
            final(self).spec_clears() == old(self).spec_clears(),
    {
        let ghost s0 = self.ordered@;
        self.ordered.push(None);
        let n = self.ordered.len();
        proof {
            let s1 = self.ordered@;
            assert(s1.drop_last() =~= s0);
            assert(n == s1.len());
            assert forall|r: int| 0 <= r < s1.len() implies (is_live(s1, r) == is_live(s0, r)
                && (is_live(s1, r) ==> key_at(s1, r) == key_at(s0, r))) by {
                if r < s0.len() {
                    assert(s1[r] == s0[r]);
                }
            }
            assert forall|r1: int, r2: int|
                #![trigger is_live(s1, r1), is_live(s1, r2)]
                is_live(s1, r1) && is_live(s1, r2) && r1 != r2 implies !self.hash_type.spec_equal(
                key_at(s1, r1),
                key_at(s1, r2),
            ) by {
                assert(is_live(s0, r1) && is_live(s0, r2));
            }
            Self::lemma_index_kept(*old(self), *self);
        }
    }

    /// Replaces the live entry at rank `q` by `(key, value)`, where `key`
    /// equals the stored key.
    fn replace_at(&mut self, q: usize, key: usize, value: usize)
        requires
            old(self).wf(),
            holds_key(old(self).spec_hash_type(), old(self)@, q as int, key),
        ensures
            final(self).wf(),
            final(self)@ == old(self)@.update(q as int, Some((key, value))),
            final(self).spec_hash_type() == old(self).spec_hash_type(),
            final(self).spec_clears() == old(self).spec_clears(),
    {
        let ghost s0 = self.ordered@;
        let ghost h = self.hash_type;
        proof {
            h.lemma_equivalence();
        }
        self.ordered.set(q, Some((key, value)));
        proof {
            let s1 = self.ordered@;
            lemma_live_count_update(s0, q as int, Some((key, value)));
            assert(h.spec_hash(key_at(s1, q as int)) == h.spec_hash(key_at(s0, q as int)));
            assert forall|r: int| 0 <= r < s1.len() implies (is_live(s1, r) == is_live(s0, r)
                && (is_live(s1, r) && r != q ==> key_at(s1, r) == key_at(s0, r))) by {}
            assert forall|r1: int, r2: int|
                #![trigger is_live(s1, r1), is_live(s1, r2)]
                is_live(s1, r1) && is_live(s1, r2) && r1 != r2 implies !h.spec_equal(
                key_at(s1, r1),
                key_at(s1, r2),
            ) by {
                assert(is_live(s0, r1) && is_live(s0, r2));
                let k0 = key_at(s0, q as int);
                if r1 == q {
                    if h.spec_equal(key, key_at(s1, r2)) {
                        assert(h.spec_equal(k0, key_at(s0, r2)));
                    }
                } else if r2 == q {
                    if h.spec_equal(key_at(s1, r1), key) {
                        assert(h.spec_equal(key, k0));
                        assert(h.spec_equal(key_at(s0, r1), k0));
                    }
                }
            }
            Self::lemma_index_kept(*old(self), *self);
        }
    }

    /// Kills the live entry at rank `q` and returns it.
    pub(crate) fn remove_at(&mut self, q: usize, hk: usize) -> (e: (usize, usize))
        requires
            old(self).wf(),
            is_live(old(self)@, q as int),
            hk == old(self).spec_hash_type().spec_hash(key_at(old(self)@, q as int)),
        ensures
            final(self).wf(),
            final(self)@ == old(self)@.update(q as int, None),
            old(self)@[q as int] == Some(e),
            final(self).spec_hash_type() == old(self).spec_hash_type(),
            final(self).spec_clears() == old(self).spec_clears(),
    {
        let ghost s0 = self.ordered@;
        let ghost i0 = self.index@;
        let ghost h = self.hash_type;
        let e = self.ordered[q].unwrap();
        proof {
            assert(old(self).indexed(q as int));
            assert(old(self).bucket_ok(hk));
        }
        let mut bucket = self.index.remove(&hk).unwrap();
        let ghost b0 = bucket@;
        let mut p: usize = 0;
        while p < bucket.len() && bucket[p] != q
            invariant
                bucket@ == b0,
                b0.contains(q),
                0 <= p <= b0.len(),
                forall|j: int| 0 <= j < p ==> b0[j] != q,
            decreases b0.len() - p,
        {
            p = p + 1;
        }
        proof {
            if p == b0.len() {
                let k = choose|k: int| 0 <= k < b0.len() && b0[k] == q;
                assert(b0[k] != q);
            }
        }
        bucket.remove(p);
        let ghost b1 = bucket@;
        if bucket.len() > 0 {
            self.index.insert(hk, bucket);
        }
        self.ordered.set(q, None);
        proof {
            lemma_live_count_update(s0, q as int, None);
        }
        self.num_entries = self.num_entries - 1;
        proof {
            let s1 = self.ordered@;
            assert(b1 == b0.remove(p as int));
            assert forall|j: int| 0 <= j < b1.len() implies #[trigger] b1[j] == (if j < p {
                b0[j]
            } else {
                b0[j + 1]
            }) && b1[j] != q by {
                if j >= p {
                    assert(b0[j + 1] != b0[p as int]);
                }
            }
            assert forall|r: int| 0 <= r < s1.len() implies (is_live(s1, r) == (is_live(s0, r) && r
                != q) && (is_live(s1, r) ==> key_at(s1, r) == key_at(s0, r))) by {}
            assert forall|r1: int, r2: int|
                #![trigger is_live(s1, r1), is_live(s1, r2)]
                is_live(s1, r1) && is_live(s1, r2) && r1 != r2 implies !h.spec_equal(
                key_at(s1, r1),
                key_at(s1, r2),
            ) by {
                assert(is_live(s0, r1) && is_live(s0, r2));
            }
            assert forall|r: int| #[trigger] is_live(s1, r) implies self.indexed(r) by {
                assert(is_live(s0, r));
                assert(old(self).indexed(r));
                let br = h.spec_hash(key_at(s0, r));
                if br == hk {
                    let k = choose|k: int| 0 <= k < b0.len() && b0[k] == r as usize;
                    assert(k != p);
                    if k < p {
                        assert(b1[k] == r as usize);
                    } else {
                        assert(b1[k - 1] == r as usize);
                    }
                    assert(b1.contains(r as usize));
                    assert(b1.len() > 0);
                    assert(self.index@[hk]@ == b1);
                } else {
                    assert(self.index@[br] == i0[br]);
                }
            }
            assert forall|b: usize| #[trigger] self.index@.contains_key(b) implies self.bucket_ok(
                b,
            ) by {
                if b == hk {
                    assert(self.index@[hk]@ == b1);
                    assert forall|i: int| 0 <= i < b1.len() implies self.bucket_entry_ok(
                        b,
                        #[trigger] b1[i],
                    ) by {
                        let j = if i < p {
                            i
                        } else {
                            i + 1
                        };
                        assert(b1[i] == b0[j]);
                        assert(old(self).bucket_entry_ok(b, b0[j]));
                    }
                    assert forall|i: int, j: int| 0 <= i < j < b1.len() implies b1[i] != b1[j] by {
                        let i2 = if i < p {
                            i
                        } else {
                            i + 1
                        };
                        let j2 = if j < p {
                            j
                        } else {
                            j + 1
                        };
                        assert(b1[i] == b0[i2] && b1[j] == b0[j2]);
                        assert(b0[i2] != b0[j2]);
                    }
                } else {
                    assert(i0.contains_key(b));
                    assert(self.index@[b] == i0[b]);
                    assert(old(self).bucket_ok(b));
                    let ranks = i0[b]@;
                    assert forall|i: int| 0 <= i < ranks.len() implies self.bucket_entry_ok(
                        b,
                        #[trigger] ranks[i],
                    ) by {
                        assert(old(self).bucket_entry_ok(b, ranks[i]));
                    }
                }
            }
        }
        e
    }

    /// Inserts `value` under `key`. A present key keeps its stored
    /// representative and its rank and gets the new value; the old value is
    /// returned. An absent key is added at the next rank. Either way the rank
    /// counter advances by one.
    pub fn insert(&mut self, key: usize, value: usize) -> (r: Option<usize>)
        requires
            old(self).wf(),
        ensures
            final(self).wf(),
            final(self).spec_hash_type() == old(self).spec_hash_type(),
            final(self).spec_clears() == old(self).spec_clears(),
            final(self)@ == after_insert(old(self).spec_hash_type(), old(self)@, key, value),
            r == lookup(old(self).spec_hash_type(), old(self)@, key),
    {
        let (hk, found) = self.find_rank(key);
        match found {
            Some(q) => {
                let previous = self.ordered[q].unwrap().1;
                self.set_value_at(q, value);
                self.push_dead_slot();
                Some(previous)
            },
            None => {
                self.push_entry(key, value, hk);
                None
            },
        }
    }

    /// Stores `(key, value)`, replacing both the stored key and the value of
    /// a present entry at its rank; an absent key is inserted.
    pub fn update(&mut self, key: usize, value: usize)
        requires
            old(self).wf(),
        ensures
            final(self).wf(),
            final(self).spec_hash_type() == old(self).spec_hash_type(),
            final(self).spec_clears() == old(self).spec_clears(),
            final(self)@ == after_update(old(self).spec_hash_type(), old(self)@, key, value),
    {
        let (hk, found) = self.find_rank(key);
        match found {
            Some(q) => {
                self.replace_at(q, key, value);
            },
            None => {
                self.push_entry(key, value, hk);
            },
        }
    }

    /// Removes the entry for `key` and returns its stored key and value.
    pub fn remove_entry(&mut self, key: usize) -> (r: Option<(usize, usize)>)
        requires
            old(self).wf(),
        ensures
            final(self).wf(),
            final(self).spec_hash_type() == old(self).spec_hash_type(),
            final(self).spec_clears() == old(self).spec_clears(),
            final(self)@ == after_remove(old(self).spec_hash_type(), old(self)@, key),
            r == lookup_entry(old(self).spec_hash_type(), old(self)@, key),
    {
        let (hk, found) = self.find_rank(key);
        match found {
            Some(q) => {
                proof {
                    self.lemma_found_hash(q as int, key);
                }
                Some(self.remove_at(q, hk))
            },
            None => None,
        }
    }

    /// Removes the entry for `key` and returns its value.
    pub fn remove(&mut self, key: usize) -> (r: Option<usize>)
        requires
            old(self).wf(),
        ensures
            final(self).wf(),
            final(self).spec_hash_type() == old(self).spec_hash_type(),
            final(self).spec_clears() == old(self).spec_clears(),
            final(self)@ == after_remove(old(self).spec_hash_type(), old(self)@, key),
            r == lookup(old(self).spec_hash_type(), old(self)@, key),
    {
        let (hk, found) = self.find_rank(key);
        match found {
            Some(q) => {
                proof {
                    self.lemma_found_hash(q as int, key);
                }
                Some(self.remove_at(q, hk).1)
            },
            None => None,
        }
    }

    /// Removes every entry and resets the rank counter to zero.
    pub fn clear(&mut self)
        requires
            old(self).wf(),
        ensures
            final(self).wf(),
            final(self).spec_hash_type() == old(self).spec_hash_type(),
            final(self).spec_clears() == old(self).spec_clears().wrapping_add(1),
            final(self)@ == Seq::<Slot>::empty(),
    {
        self.ordered.clear();
        self.index.clear();
        self.num_entries = 0;
        self.clears = self.clears.wrapping_add(1);
        proof {
            assert(live_entries(self.ordered@) == Seq::<(usize, usize)>::empty());
        }
    }

    /// The entry at rank `n`: `None` for a rank never handed out or no
    /// longer live.
    pub fn get_nth(&self, n: usize) -> (r: Option<(usize, usize)>)
        ensures
            r == (if n < self@.len() {
                self@[n as int]
            } else {
                None
            }),
    {
        if n < self.ordered.len() {
            self.ordered[n]
        } else {
            None
        }
    }

    /// The least live rank at or after `from`, if any.
    pub fn next_live_from(&self, from: usize) -> (r: Option<usize>)
        ensures
            match r {
                Some(q) => is_first_live_from(self@, from as int, q as int),
                None => none_live_from(self@, from as int),
            },
    {
        let mut i = from;
        while i < self.ordered.len()
            invariant
                from <= i,
                forall|q: int| from <= q < i ==> !is_live(self@, q),
            decreases self@.len() - i,
        {
            if self.ordered[i].is_some() {
                return Some(i);
            }
            i = i + 1;
        }
        None
    }

    /// The greatest live rank, if any.
    fn last_live(&self) -> (r: Option<usize>)
        ensures
            match r {
                Some(q) => is_last_live(self@, q as int),
                None => none_live_from(self@, 0),
            },
    {
        let mut i = self.ordered.len();
        while i > 0
            invariant
                i <= self@.len(),
                forall|q: int| i <= q ==> !is_live(self@, q),
            decreases i,
        {
            if self.ordered[i - 1].is_some() {
                return Some(i - 1);
            }
            i = i - 1;
        }
        None
    }

    /// The rank of the first live entry, or 0 when there is none.
    pub fn min_insert_rank(&self) -> (r: usize)
        ensures
            if none_live_from(self@, 0) {
                r == 0
            } else {
                is_first_live_from(self@, 0, r as int)
            },
    {
        match self.next_live_from(0) {
            Some(q) => q,
            None => 0,
        }
    }

    /// The rank of the last live entry, or 0 when there is none.
    pub fn max_insert_rank(&self) -> (r: usize)
        ensures
            if none_live_from(self@, 0) {
                r == 0
            } else {
                is_last_live(self@, r as int)
            },
    {
        match self.last_live() {
            Some(q) => q,
            None => 0,
        }
    }

    /// The entry inserted earliest among the live ones.
    pub fn first(&self) -> (r: Option<(usize, usize)>)
        ensures
            r == (if live_entries(self@).len() == 0 {
                None
            } else {
                Some(live_entries(self@)[0])
            }),
    {
        proof {
            lemma_no_live_no_entries(self@);
        }
        match self.next_live_from(0) {
            Some(q) => {
                proof {
                    lemma_first_live_entry(self@, q as int);
                }
                self.ordered[q]
            },
            None => None,
        }
    }

    /// The entry inserted latest among the live ones.
    pub fn last(&self) -> (r: Option<(usize, usize)>)
        ensures
            r == (if live_entries(self@).len() == 0 {
                None
            } else {
                Some(live_entries(self@).last())
            }),
    {
        proof {
            lemma_no_live_no_entries(self@);
        }
        match self.last_live() {
            Some(q) => {
                proof {
                    lemma_last_live_entry(self@, q as int);
                }
                self.ordered[q]
            },
            None => None,
        }
    }

    /// The live `(key, value)` pairs in insertion order.
    pub fn entries(&self) -> (r: Vec<(usize, usize)>)
        ensures
            r@ == live_entries(self@),
    {
        let mut out: Vec<(usize, usize)> = Vec::new();
        let mut i: usize = 0;
        while i < self.ordered.len()
            invariant
                0 <= i <= self@.len(),
                out@ == live_entries(self@.subrange(0, i as int)),
            decreases self@.len() - i,
        {
            proof {
                lemma_live_entries_prefix(self@, i as int);
            }
            match self.ordered[i] {
                Some(e) => out.push(e),
                None => {},
            }
            i = i + 1;
        }
        proof {
            assert(self@.subrange(0, self@.len() as int) =~= self@);
        }
        out
    }

    /// An iterator over the live `(key, value)` pairs in insertion order.
    pub fn iter(&self) -> (r: Iter)
        ensures
            r@ == live_entries(self@),
    {
        Iter::new(self.entries())
    }

    /// An iterator over the live keys in insertion order.
    pub fn keys(&self) -> (r: Keys)
        ensures
            r@ == live_entries(self@).map_values(|e: (usize, usize)| e.0),
    {
        let entries = self.entries();
        let mut out: Vec<usize> = Vec::new();
        let mut i: usize = 0;
        while i < entries.len()
            invariant
                0 <= i <= entries@.len(),
                out@ == entries@.subrange(0, i as int).map_values(|e: (usize, usize)| e.0),
            decreases entries@.len() - i,
        {
            out.push(entries[i].0);
            i = i + 1;
            proof {
                assert(out@ =~= entries@.subrange(0, i as int).map_values(
                    |e: (usize, usize)| e.0,
                ));
            }
        }
        proof {
            assert(entries@.subrange(0, entries@.len() as int) =~= entries@);
        }
        Keys::new(out)
    }

    /// An iterator over the live values in insertion order.
    pub fn values(&self) -> (r: Values)
        ensures
            r@ == live_entries(self@).map_values(|e: (usize, usize)| e.1),
    {
        let entries = self.entries();
        let mut out: Vec<usize> = Vec::new();
        let mut i: usize = 0;
        while i < entries.len()
            invariant
                0 <= i <= entries@.len(),
                out@ == entries@.subrange(0, i as int).map_values(|e: (usize, usize)| e.1),
            decreases entries@.len() - i,
        {
            out.push(entries[i].1);
            i = i + 1;
            proof {
                assert(out@ =~= entries@.subrange(0, i as int).map_values(
                    |e: (usize, usize)| e.1,
                ));
            }
        }
        proof {
            assert(entries@.subrange(0, entries@.len() as int) =~= entries@);
        }
        Values::new(out)
    }

    /// The live ranks at or after `rank`, in increasing order. Entries that
    /// are inserted later get higher ranks, so a traversal can resume from
    /// any rank it has reached.
    pub fn insert_ranks_from(&self, rank: usize) -> (r: InsertRanks)
        ensures
            r@ == live_ranks_from(self@, rank as int),
            forall|i: int|
                0 <= i < r@.len() ==> rank <= #[trigger] r@[i] && is_live(self@, r@[i] as int),
            forall|i: int, j: int| 0 <= i < j < r@.len() ==> #[trigger] r@[i] < #[trigger] r@[j],
            forall|q: int| rank <= q && is_live(self@, q) ==> #[trigger] r@.contains(q as usize),
    {
        let mut out: Vec<usize> = Vec::new();
        let mut i: usize = 0;
        while i < self.ordered.len()
            invariant
                0 <= i <= self@.len(),
                out@ == live_ranks_from(self@.subrange(0, i as int), rank as int),
            decreases self@.len() - i,
        {
            proof {
                assert(self@.subrange(0, i + 1).drop_last() =~= self@.subrange(0, i as int));
            }
            if self.ordered[i].is_some() && rank <= i {
                out.push(i);
            }
            i = i + 1;
        }
        proof {
            assert(self@.subrange(0, self@.len() as int) =~= self@);
            lemma_live_ranks_from(self@, rank as int);
        }
        InsertRanks::new(out)
    }

    /// Removes the entry inserted earliest among the live ones and returns it.
    pub fn shift(&mut self) -> (r: Option<(usize, usize)>)
        requires
            old(self).wf(),
        ensures
            final(self).wf(),
            final(self).spec_hash_type() == old(self).spec_hash_type(),
            final(self).spec_clears() == old(self).spec_clears(),
            live_entries(old(self)@).len() == 0 ==> r.is_none() && final(self)@ == old(self)@,
            live_entries(old(self)@).len() > 0 ==> r == Some(live_entries(old(self)@)[0])
                && final(self)@ == after_remove(
                old(self).spec_hash_type(),
                old(self)@,
                live_entries(old(self)@)[0].0,
            ),
    {
        proof {
            lemma_no_live_no_entries(self@);
        }
        match self.next_live_from(0) {
            Some(q) => {
                proof {
                    lemma_first_live_entry(self@, q as int);
                    lemma_live_key_found(self.hash_type, self@, q as int);
                }
                let key = self.ordered[q].unwrap().0;
                let hk = self.hash_type.hash(key);
                Some(self.remove_at(q, hk))
            },
            None => None,
        }
    }

    /// The first `size` keys in insertion order (all of them if there are
    /// fewer).
    pub fn keys_upto(&self, size: usize) -> (r: Vec<usize>)
        ensures
            r@ == (if size < live_entries(self@).len() {
                live_entries(self@).map_values(|e: (usize, usize)| e.0).subrange(0, size as int)
            } else {
                live_entries(self@).map_values(|e: (usize, usize)| e.0)
            }),
    {
        let mut v = self.keys().into_vec();
        v.truncate(size);
        v
    }

    /// The first `size` values in insertion order (all of them if there are
    /// fewer).
    pub fn values_upto(&self, size: usize) -> (r: Vec<usize>)
        ensures
            r@ == (if size < live_entries(self@).len() {
                live_entries(self@).map_values(|e: (usize, usize)| e.1).subrange(0, size as int)
            } else {
                live_entries(self@).map_values(|e: (usize, usize)| e.1)
            }),
    {
        let mut v = self.values().into_vec();
        v.truncate(size);
        v
    }

    /// A rough count of the bytes the table occupies: its own size, one slot
    /// per rank handed out, and one bucket word per live entry (saturating).
    pub fn estimated_memsize(&self) -> (r: usize)
        requires
            self.wf(),
        ensures
            r == (size_of::<Self>() as usize).saturating_add(
                saturating_product(size_of::<Slot>() as int, self@.len() as int),
            ).saturating_add(
                saturating_product(size_of::<usize>() as int, live_entries(self@).len() as int),
            ),
    {
        let header = core::mem::size_of::<Self>();
        let slots = saturating_mul(core::mem::size_of::<Slot>(), self.ordered.len());
        let buckets = saturating_mul(core::mem::size_of::<usize>(), self.num_entries);
        header.saturating_add(slots).saturating_add(buckets)
    }

    /// Makes room for at least `additional` more entries.
    pub fn reserve(&mut self, additional: usize)
        requires
            old(self).wf(),
        ensures
            final(self).wf(),
            final(self).spec_hash_type() == old(self).spec_hash_type(),
            final(self).spec_clears() == old(self).spec_clears(),
            final(self)@ == old(self)@,
    {
        self.ordered.reserve(additional);
        self.index.reserve(additional);
    }
}

impl<H: HashType + Copy> StHash<H> {
    /// A deep, independent copy: same key semantics, same slots, same ranks.
    pub fn copy(&self) -> (r: Self)
        requires
            self.wf(),
        ensures
            r.wf(),
            r@ == self@,
            r.spec_hash_type() == self.spec_hash_type(),
            r.spec_clears() == self.spec_clears(),
            live_entries(r@) == live_entries(self@),
            forall|k: usize|
                #![trigger lookup(r.spec_hash_type(), r@, k)]
                lookup(r.spec_hash_type(), r@, k) == lookup(self.spec_hash_type(), self@, k),
    {
        let mut ordered: Vec<Slot> = Vec::with_capacity(self.ordered.len());
        let mut i: usize = 0;
        while i < self.ordered.len()
            invariant
                0 <= i <= self.ordered@.len(),
                ordered@ == self.ordered@.subrange(0, i as int),
            decreases self.ordered@.len() - i,
        {
            ordered.push(self.ordered[i]);
            i = i + 1;
            proof {
                assert(ordered@ =~= self.ordered@.subrange(0, i as int));
            }
        }
        proof {
            assert(ordered@ =~= self.ordered@);
        }
        let index = self.index.clone();
        StHash {
            hash_type: self.hash_type,
            ordered,
            index,
            num_entries: self.num_entries,
            clears: self.clears,
        }
    }
}

} // verus!
