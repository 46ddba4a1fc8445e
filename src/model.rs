//! The mathematical model of a table: the ordered index as a sequence of
//! slots, one per insertion rank, and what each operation does to it.
use vstd::prelude::*;

use crate::hash_type::HashType;

verus! {

/// The slot at one insertion rank: the stored `(key, value)` pair while the
/// entry is live, `None` once it was removed (or if the rank was consumed
/// without creating an entry).
pub type Slot = Option<(usize, usize)>;

/// Rank `r` holds a live entry.
pub open spec fn is_live(slots: Seq<Slot>, r: int) -> bool {
    0 <= r < slots.len() && slots[r].is_some()
}

/// The key stored at rank `r`.
pub open spec fn key_at(slots: Seq<Slot>, r: int) -> usize {
    slots[r].unwrap().0
}

/// The value stored at rank `r`.
pub open spec fn value_at(slots: Seq<Slot>, r: int) -> usize {
    slots[r].unwrap().1
}

/// Rank `r` holds a live entry whose key equals `key` under `h`.
pub open spec fn holds_key<H: HashType>(h: H, slots: Seq<Slot>, r: int, key: usize) -> bool {
    is_live(slots, r) && h.spec_equal(key_at(slots, r), key)
}

/// Some live entry has a key equal to `key`.
pub open spec fn contains<H: HashType>(h: H, slots: Seq<Slot>, key: usize) -> bool {
    exists|r: int| holds_key(h, slots, r, key)
}

/// The rank of the live entry whose key equals `key` (meaningful only when
/// `contains(h, slots, key)`).
pub open spec fn rank_of<H: HashType>(h: H, slots: Seq<Slot>, key: usize) -> int {
    choose|r: int| holds_key(h, slots, r, key)
}

/// No two live entries have equal keys.
pub open spec fn keys_unique<H: HashType>(h: H, slots: Seq<Slot>) -> bool {
    forall|r1: int, r2: int|
        #![trigger is_live(slots, r1), is_live(slots, r2)]
        is_live(slots, r1) && is_live(slots, r2) && r1 != r2 ==> !h.spec_equal(
            key_at(slots, r1),
            key_at(slots, r2),
        )
}

/// The live `(key, value)` pairs in increasing rank order: what iteration yields.
pub open spec fn live_entries(slots: Seq<Slot>) -> Seq<(usize, usize)>
    decreases slots.len(),
{
    if slots.len() == 0 {
        Seq::empty()
    } else {
        let rest = live_entries(slots.drop_last());
        match slots.last() {
            Some(e) => rest.push(e),
            None => rest,
        }
    }
}

/// The value looked up for `key`.
pub open spec fn lookup<H: HashType>(h: H, slots: Seq<Slot>, key: usize) -> Option<usize> {
    if contains(h, slots, key) {
        Some(value_at(slots, rank_of(h, slots, key)))
    } else {
        None
    }
}

/// The stored key and its value looked up for `key`.
pub open spec fn lookup_entry<H: HashType>(h: H, slots: Seq<Slot>, key: usize) -> Option<
    (usize, usize),
> {
    if contains(h, slots, key) {
        slots[rank_of(h, slots, key)]
    } else {
        None
    }
}

/// The slots after `insert(key, value)`. A present key keeps its stored
/// representative and its rank and takes the new value; an absent key gets
/// the next rank. Either way one rank is consumed.
pub open spec fn after_insert<H: HashType>(
    h: H,
    slots: Seq<Slot>,
    key: usize,
    value: usize,
) -> Seq<Slot> {
    if contains(h, slots, key) {
        let r = rank_of(h, slots, key);
        slots.update(r, Some((key_at(slots, r), value))).push(None)
    } else {
        slots.push(Some((key, value)))
    }
}

/// The slots after `update(key, value)`. A present key is replaced by the
/// new representative and value at the same rank; an absent key is inserted.
pub open spec fn after_update<H: HashType>(
    h: H,
    slots: Seq<Slot>,
    key: usize,
    value: usize,
) -> Seq<Slot> {
    if contains(h, slots, key) {
        slots.update(rank_of(h, slots, key), Some((key, value)))
    } else {
        slots.push(Some((key, value)))
    }
}

/// The slots after `remove(key)`: the entry's rank becomes dead.
pub open spec fn after_remove<H: HashType>(h: H, slots: Seq<Slot>, key: usize) -> Seq<Slot> {
    if contains(h, slots, key) {
        slots.update(rank_of(h, slots, key), None)
    } else {
        slots
    }
}

/// `r` is the least live rank at or after `from`.
pub open spec fn is_first_live_from(slots: Seq<Slot>, from: int, r: int) -> bool {
    &&& from <= r
    &&& is_live(slots, r)
    &&& forall|q: int| from <= q < r ==> !is_live(slots, q)
}

/// No rank at or after `from` is live.
pub open spec fn none_live_from(slots: Seq<Slot>, from: int) -> bool {
    forall|q: int| from <= q ==> !is_live(slots, q)
}

/// `r` is the greatest live rank.
pub open spec fn is_last_live(slots: Seq<Slot>, r: int) -> bool {
    &&& is_live(slots, r)
    &&& forall|q: int| r < q ==> !is_live(slots, q)
}

/// The live ranks at or after `from`, in increasing order.
pub open spec fn live_ranks_from(slots: Seq<Slot>, from: int) -> Seq<usize>
    decreases slots.len(),
{
    if slots.len() == 0 {
        Seq::empty()
    } else {
        let rest = live_ranks_from(slots.drop_last(), from);
        let r = slots.len() - 1;
        if slots.last().is_some() && from <= r {
            rest.push(r as usize)
        } else {
            rest
        }
    }
}

/// Under `keys_unique`, a rank holding `key` is the rank of `key`.
pub proof fn lemma_rank_of_unique<H: HashType>(h: H, slots: Seq<Slot>, r: int, key: usize)
    requires
        keys_unique(h, slots),
        holds_key(h, slots, r, key),
    ensures
        contains(h, slots, key),
        rank_of(h, slots, key) == r,
{
    h.lemma_equivalence();
    let q = rank_of(h, slots, key);
    assert(holds_key(h, slots, q, key));
    if q != r {
        assert(h.spec_equal(key, key_at(slots, r)));
        assert(h.spec_equal(key_at(slots, q), key_at(slots, r)));
        assert(is_live(slots, q) && is_live(slots, r));
    }
}

/// Each live entry is found by its own key.
pub proof fn lemma_live_key_found<H: HashType>(h: H, slots: Seq<Slot>, r: int)
    requires
        keys_unique(h, slots),
        is_live(slots, r),
    ensures
        contains(h, slots, key_at(slots, r)),
        rank_of(h, slots, key_at(slots, r)) == r,
        lookup(h, slots, key_at(slots, r)) == Some(value_at(slots, r)),
        lookup_entry(h, slots, key_at(slots, r)) == slots[r],
{
    h.lemma_equivalence();
    assert(h.spec_equal(key_at(slots, r), key_at(slots, r)));
    lemma_rank_of_unique(h, slots, r, key_at(slots, r));
}

/// Changing one slot changes the number of live entries by what that slot
/// gained or lost.
pub proof fn lemma_live_count_update(slots: Seq<Slot>, r: int, x: Slot)
    requires
        0 <= r < slots.len(),
    ensures
        live_entries(slots.update(r, x)).len() == live_entries(slots).len() - (if slots[r].is_some() {
            1int
        } else {
            0int
        }) + (if x.is_some() {
            1int
        } else {
            0int
        }),
    decreases slots.len(),
{
    let s2 = slots.update(r, x);
    if r == slots.len() - 1 {
        assert(s2.drop_last() =~= slots.drop_last());
    } else {
        lemma_live_count_update(slots.drop_last(), r, x);
        assert(s2.drop_last() =~= slots.drop_last().update(r, x));
    }
}

/// Changing a live slot into another live slot keeps the number of live
/// entries, and the entry moves nowhere: the one at the same position of the
/// iteration order is replaced.
pub proof fn lemma_live_entries_replace(slots: Seq<Slot>, r: int, e: (usize, usize)) -> (i: int)
    requires
        is_live(slots, r),
    ensures
        0 <= i < live_entries(slots).len(),
        live_entries(slots)[i] == slots[r].unwrap(),
        live_entries(slots.update(r, Some(e))) == live_entries(slots).update(i, e),
    decreases slots.len(),
{
    let s2 = slots.update(r, Some(e));
    if r == slots.len() - 1 {
        assert(s2.drop_last() =~= slots.drop_last());
        let i = live_entries(slots.drop_last()).len() as int;
        assert(live_entries(s2) =~= live_entries(slots).update(i, e));
        i
    } else {
        let i = lemma_live_entries_replace(slots.drop_last(), r, e);
        assert(s2.drop_last() =~= slots.drop_last().update(r, Some(e)));
        assert(live_entries(s2) =~= live_entries(slots).update(i, e));
        i
    }
}

/// Every element of the iteration order is a live slot.
pub proof fn lemma_live_entries_from_slots(slots: Seq<Slot>, i: int) -> (r: int)
    requires
        0 <= i < live_entries(slots).len(),
    ensures
        is_live(slots, r),
        slots[r] == Some(live_entries(slots)[i]),
    decreases slots.len(),
{
    let rest = live_entries(slots.drop_last());
    if i < rest.len() {
        let r = lemma_live_entries_from_slots(slots.drop_last(), i);
        r
    } else {
        (slots.len() - 1) as int
    }
}

/// The live ranks from `from` are exactly the live ranks not below `from`,
/// in increasing order.
pub proof fn lemma_live_ranks_from(slots: Seq<Slot>, from: int)
    requires
        slots.len() <= usize::MAX,
    ensures
        forall|i: int|
            0 <= i < live_ranks_from(slots, from).len() ==> {
                let r = #[trigger] live_ranks_from(slots, from)[i] as int;
                from <= r && is_live(slots, r)
            },
        forall|i: int, j: int|
            0 <= i < j < live_ranks_from(slots, from).len() ==> #[trigger] live_ranks_from(
                slots,
                from,
            )[i] < #[trigger] live_ranks_from(slots, from)[j],
        forall|r: int|
            from <= r && is_live(slots, r) ==> #[trigger] live_ranks_from(slots, from).contains(
                r as usize,
            ),
    decreases slots.len(),
{
    if slots.len() > 0 {
        let d = slots.drop_last();
        lemma_live_ranks_from(d, from);
        let rest = live_ranks_from(d, from);
        let all = live_ranks_from(slots, from);
        let last = slots.len() - 1;
        assert forall|i: int| 0 <= i < rest.len() implies rest[i] < last by {
            assert(is_live(d, rest[i] as int));
        }
        assert forall|i: int| 0 <= i < all.len() implies {
            let r = #[trigger] all[i] as int;
            from <= r && is_live(slots, r)
        } by {
            if i < rest.len() {
                assert(all[i] == rest[i]);
                assert(is_live(d, rest[i] as int));
            }
        }
        assert forall|i: int, j: int| 0 <= i < j < all.len() implies #[trigger] all[i]
            < #[trigger] all[j] by {
            assert(all[i] == rest[i]);
            if j < rest.len() {
                assert(all[j] == rest[j]);
            }
        }
        assert forall|r: int| from <= r && is_live(slots, r) implies all.contains(r as usize) by {
            if r < last {
                assert(is_live(d, r));
                assert(rest.contains(r as usize));
                let k = choose|k: int| 0 <= k < rest.len() && rest[k] == r as usize;
                assert(all[k] == r as usize);
            } else {
                assert(all[rest.len() as int] == r as usize);
            }
        }
    }
}

/// With no live rank there is nothing to iterate, and the other way round.
pub proof fn lemma_no_live_no_entries(slots: Seq<Slot>)
    ensures
        none_live_from(slots, 0) <==> live_entries(slots).len() == 0,
    decreases slots.len(),
{
    if slots.len() > 0 {
        let d = slots.drop_last();
        lemma_no_live_no_entries(d);
        if none_live_from(slots, 0) {
            assert forall|q: int| 0 <= q implies !is_live(d, q) by {
                if q < d.len() {
                    assert(!is_live(slots, q));
                }
            }
            assert(!is_live(slots, slots.len() - 1));
        }
        if live_entries(slots).len() == 0 {
            assert(slots.last().is_none());
            assert forall|q: int| 0 <= q implies !is_live(slots, q) by {
                if q < d.len() {
                    assert(!is_live(d, q));
                }
            }
        }
    }
}

/// The least live rank holds the first entry of the iteration order.
pub proof fn lemma_first_live_entry(slots: Seq<Slot>, q: int)
    requires
        is_first_live_from(slots, 0, q),
    ensures
        live_entries(slots).len() > 0,
        live_entries(slots)[0] == slots[q].unwrap(),
    decreases slots.len(),
{
    let d = slots.drop_last();
    if q == slots.len() - 1 {
        assert forall|r: int| 0 <= r implies !is_live(d, r) by {
            if r < d.len() {
                assert(!is_live(slots, r));
            }
        }
        lemma_no_live_no_entries(d);
    } else {
        assert(d[q] == slots[q]);
        assert forall|r: int| 0 <= r < q implies !is_live(d, r) by {
            assert(d[r] == slots[r]);
            assert(!is_live(slots, r));
        }
        assert(is_first_live_from(d, 0, q));
        lemma_first_live_entry(d, q);
    }
}

/// The greatest live rank holds the last entry of the iteration order.
pub proof fn lemma_last_live_entry(slots: Seq<Slot>, q: int)
    requires
        is_last_live(slots, q),
    ensures
        live_entries(slots).len() > 0,
        live_entries(slots).last() == slots[q].unwrap(),
    decreases slots.len(),
{
    let d = slots.drop_last();
    if q < slots.len() - 1 {
        assert(!is_live(slots, slots.len() - 1));
        assert(d[q] == slots[q]);
        assert forall|r: int| q < r implies !is_live(d, r) by {
            if r < d.len() {
                assert(d[r] == slots[r]);
                assert(!is_live(slots, r));
            }
        }
        assert(is_last_live(d, q));
        lemma_last_live_entry(d, q);
    }
}

/// Iterating a prefix one slot longer adds that slot's entry, if live.
pub proof fn lemma_live_entries_prefix(slots: Seq<Slot>, i: int)
    requires
        0 <= i < slots.len(),
    ensures
        live_entries(slots.subrange(0, i + 1)) == (match slots[i] {
            Some(e) => live_entries(slots.subrange(0, i)).push(e),
            None => live_entries(slots.subrange(0, i)),
        }),
{
    assert(slots.subrange(0, i + 1).drop_last() =~= slots.subrange(0, i));
}

/// Killing a live slot removes its entry from the iteration order and keeps
/// the order of the others.
pub proof fn lemma_live_entries_kill(slots: Seq<Slot>, r: int) -> (i: int)
    requires
        is_live(slots, r),
    ensures
        0 <= i < live_entries(slots).len(),
        live_entries(slots)[i] == slots[r].unwrap(),
        live_entries(slots.update(r, None)) == live_entries(slots).remove(i),
    decreases slots.len(),
{
    let s2 = slots.update(r, None);
    if r == slots.len() - 1 {
        assert(s2.drop_last() =~= slots.drop_last());
        let i = live_entries(slots.drop_last()).len() as int;
        assert(live_entries(s2) =~= live_entries(slots).remove(i));
        i
    } else {
        let i = lemma_live_entries_kill(slots.drop_last(), r);
        assert(s2.drop_last() =~= slots.drop_last().update(r, None));
        assert(live_entries(s2) =~= live_entries(slots).remove(i));
        i
    }
}

/// The live entries never outnumber the slots.
pub proof fn lemma_live_count_bound(slots: Seq<Slot>)
    ensures
        live_entries(slots).len() <= slots.len(),
    decreases slots.len(),
{
    if slots.len() > 0 {
        lemma_live_count_bound(slots.drop_last());
    }
}

} // verus!
