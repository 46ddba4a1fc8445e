//! Properties of the table that hold across operations.
use vstd::prelude::*;

use crate::hash_type::HashType;
use crate::model::{
    after_insert, after_remove, after_update, contains, holds_key, is_first_live_from, is_live,
    key_at, keys_unique, none_live_from,
    lemma_live_entries_from_slots, lemma_live_entries_kill, lemma_live_entries_replace,
    lemma_live_key_found, lemma_rank_of_unique, live_entries, lookup, rank_of, Slot,
};
use crate::st::StHash;

verus! {

/// Whatever sequence of operations produced a table, every pair that
/// iteration yields is found again by its key, with the same value, and the
/// number of pairs iteration yields is the table's length.
pub proof fn lemma_iteration_agrees_with_lookup<H: HashType>(t: &StHash<H>, i: int)
    requires
        t.wf(),
        0 <= i < live_entries(t@).len(),
    ensures
        lookup(t.spec_hash_type(), t@, live_entries(t@)[i].0) == Some(live_entries(t@)[i].1),
{
    t.lemma_wf_keys_unique();
    let r = lemma_live_entries_from_slots(t@, i);
    lemma_live_key_found(t.spec_hash_type(), t@, r);
}

/// Removing a present key and inserting it again takes it out of its place
/// in the iteration order and puts it after every entry that stayed.
pub proof fn lemma_reinsert_goes_last<H: HashType>(
    h: H,
    slots: Seq<Slot>,
    key: usize,
    value: usize,
) -> (i: int)
    requires
        keys_unique(h, slots),
        contains(h, slots, key),
    ensures
        0 <= i < live_entries(slots).len(),
        h.spec_equal(live_entries(slots)[i].0, key),
        !contains(h, after_remove(h, slots, key), key),
        live_entries(after_remove(h, slots, key)) == live_entries(slots).remove(i),
        live_entries(after_insert(h, after_remove(h, slots, key), key, value)) == live_entries(
            slots,
        ).remove(i).push((key, value)),
{
    h.lemma_equivalence();
    let r = rank_of(h, slots, key);
    assert(holds_key(h, slots, r, key));
    let removed = after_remove(h, slots, key);
    assert(removed == slots.update(r, None));
    let i = lemma_live_entries_kill(slots, r);
    if contains(h, removed, key) {
        let q = choose|q: int| holds_key(h, removed, q, key);
        assert(q != r);
        assert(is_live(slots, q) && key_at(slots, q) == key_at(removed, q));
        assert(h.spec_equal(key, key_at(slots, r)));
        assert(h.spec_equal(key_at(slots, q), key_at(slots, r)));
    }
    let s2 = after_insert(h, removed, key, value);
    assert(s2 == removed.push(Some((key, value))));
    assert(s2.drop_last() =~= removed);
    i
}

/// Updating a present key, possibly through a different but equal
/// representative, keeps the entry's rank, consumes no rank, and keeps its
/// place in the iteration order: only that entry's key and value change.
pub proof fn lemma_update_keeps_rank<H: HashType>(
    h: H,
    slots: Seq<Slot>,
    key: usize,
    value: usize,
) -> (i: int)
    requires
        keys_unique(h, slots),
        contains(h, slots, key),
    ensures
        after_update(h, slots, key, value).len() == slots.len(),
        contains(h, after_update(h, slots, key, value), key),
        rank_of(h, after_update(h, slots, key, value), key) == rank_of(h, slots, key),
        0 <= i < live_entries(slots).len(),
        h.spec_equal(live_entries(slots)[i].0, key),
        live_entries(after_update(h, slots, key, value)) == live_entries(slots).update(
            i,
            (key, value),
        ),
{
    h.lemma_equivalence();
    let r = rank_of(h, slots, key);
    assert(holds_key(h, slots, r, key));
    let s2 = after_update(h, slots, key, value);
    assert(s2 == slots.update(r, Some((key, value))));
    let i = lemma_live_entries_replace(slots, r, (key, value));
    let k0 = key_at(slots, r);
    assert forall|r1: int, r2: int|
        #![trigger is_live(s2, r1), is_live(s2, r2)]
        is_live(s2, r1) && is_live(s2, r2) && r1 != r2 implies !h.spec_equal(
        key_at(s2, r1),
        key_at(s2, r2),
    ) by {
        assert(is_live(slots, r1) && is_live(slots, r2));
        if r1 == r {
            if h.spec_equal(key, key_at(s2, r2)) {
                assert(h.spec_equal(k0, key_at(slots, r2)));
            }
        } else if r2 == r {
            if h.spec_equal(key_at(s2, r1), key) {
                assert(h.spec_equal(key, k0));
                assert(h.spec_equal(key_at(slots, r1), k0));
            }
        }
    }
    assert(holds_key(h, s2, r, key));
    lemma_rank_of_unique(h, s2, r, key);
    i
}

/// Every insertion consumes exactly one rank. A key inserted while absent
/// gets the next rank, which is above every rank handed out before it,
/// whatever was removed in between; ranks restart from zero only after
/// `clear`.
pub proof fn lemma_first_insert_gets_fresh_rank<H: HashType>(
    h: H,
    slots: Seq<Slot>,
    key: usize,
    value: usize,
)
    requires
        keys_unique(h, slots),
    ensures
        after_insert(h, slots, key, value).len() == slots.len() + 1,
        !contains(h, slots, key) ==> {
            &&& contains(h, after_insert(h, slots, key, value), key)
            &&& rank_of(h, after_insert(h, slots, key, value), key) == slots.len()
            &&& forall|r: int| #[trigger] is_live(slots, r) ==> r < rank_of(
                h,
                after_insert(h, slots, key, value),
                key,
            )
        },
{
    h.lemma_equivalence();
    if !contains(h, slots, key) {
        let s2 = after_insert(h, slots, key, value);
        let q = slots.len() as int;
        assert(s2 == slots.push(Some((key, value))));
        assert forall|r1: int, r2: int|
            #![trigger is_live(s2, r1), is_live(s2, r2)]
            is_live(s2, r1) && is_live(s2, r2) && r1 != r2 implies !h.spec_equal(
            key_at(s2, r1),
            key_at(s2, r2),
        ) by {
            if r1 == q {
                assert(!holds_key(h, slots, r2, key));
            } else if r2 == q {
                assert(!holds_key(h, slots, r1, key));
            } else {
                assert(is_live(slots, r1) && is_live(slots, r2));
            }
        }
        assert(holds_key(h, s2, q, key));
        lemma_rank_of_unique(h, s2, q, key);
    }
}

/// A traversal only moves forward. If one step visited rank `visited`,
/// found from `cursor`, and the next step searches from just past it in the
/// table as the callback left it, then the next rank visited is higher (so no
/// rank is visited twice), and every rank skipped on the way was not live at
/// that moment (so only entries removed before being reached are missed).
pub proof fn lemma_traversal_moves_forward(
    slots: Seq<Slot>,
    cursor: int,
    visited: int,
    later: Seq<Slot>,
    next_visited: int,
)
    requires
        is_first_live_from(slots, cursor, visited),
        is_first_live_from(later, visited + 1, next_visited),
    ensures
        cursor <= visited < next_visited,
        forall|q: int| visited < q < next_visited ==> !is_live(later, q),
        is_live(later, next_visited),
{
}

/// Where step `k` of a traversal searches from: rank 0 first, then just
/// past the rank the step before visited.
pub open spec fn traversal_cursor(visits: Seq<int>, k: int) -> int {
    if k <= 0 {
        0
    } else {
        visits[k - 1] + 1
    }
}

/// A whole run of a traversal that resumes just past each visited rank:
/// `states[k]` is the table as step `k` searched it (as earlier callbacks
/// left it), step `k` visited `visits[k]`, the least live rank at or after
/// its cursor, and the run ended because nothing at or after the last
/// cursor was live.
pub open spec fn is_traversal_run(states: Seq<Seq<Slot>>, visits: Seq<int>) -> bool {
    &&& states.len() == visits.len() + 1
    &&& forall|k: int|
        0 <= k < visits.len() ==> is_first_live_from(
            #[trigger] states[k],
            traversal_cursor(visits, k),
            visits[k],
        )
    &&& none_live_from(states[visits.len() as int], traversal_cursor(visits, visits.len() as int))
}

/// Rank `q` was visited by some step of the run, or was not live when the
/// step whose search window covers it passed over it.
pub open spec fn visited_or_passed_dead(states: Seq<Seq<Slot>>, visits: Seq<int>, q: int) -> bool {
    (exists|k: int| 0 <= k < visits.len() && visits[k] == q) || (exists|k: int|
        0 <= k <= visits.len() && traversal_cursor(visits, k) <= q && (k == visits.len() || q
            < visits[k]) && !is_live(#[trigger] states[k], q))
}

/// The step of a run whose search window holds rank `q`.
proof fn lemma_step_window(states: Seq<Seq<Slot>>, visits: Seq<int>, q: int, k: int) -> (j: int)
    requires
        is_traversal_run(states, visits),
        0 <= k <= visits.len(),
        traversal_cursor(visits, k) <= q,
    ensures
        k <= j <= visits.len(),
        traversal_cursor(visits, j) <= q,
        j < visits.len() ==> q <= visits[j],
    decreases visits.len() - k,
{
    if k == visits.len() || q <= visits[k] {
        k
    } else {
        lemma_step_window(states, visits, q, k + 1)
    }
}

/// Over a whole run, the visited ranks strictly increase, so no entry is
/// handed to the callback twice; and every rank was either visited or was
/// not live when the run passed over it. So an entry that is live when the
/// traversal reaches its rank is visited, whether it was there at the start
/// or was inserted by a callback during the run, and an entry is missed only
/// if it was removed before its rank was reached.
pub proof fn lemma_traversal_run(states: Seq<Seq<Slot>>, visits: Seq<int>)
    requires
        is_traversal_run(states, visits),
    ensures
        forall|i: int, j: int|
            0 <= i < j < visits.len() ==> #[trigger] visits[i] < #[trigger] visits[j],
        forall|q: int| 0 <= q ==> #[trigger] visited_or_passed_dead(states, visits, q),
{
    assert forall|i: int, j: int| 0 <= i < j < visits.len() implies #[trigger] visits[i]
        < #[trigger] visits[j] by {
        lemma_visits_increase(states, visits, i, j);
    }
    assert forall|q: int| 0 <= q implies #[trigger] visited_or_passed_dead(states, visits, q) by {
        let j = lemma_step_window(states, visits, q, 0);
        if j < visits.len() {
            assert(is_first_live_from(states[j], traversal_cursor(visits, j), visits[j]));
            if visits[j] != q {
                assert(!is_live(states[j], q));
            }
        } else {
            assert(!is_live(states[j], q));
        }
    }
}

/// Later steps of a run visit higher ranks.
proof fn lemma_visits_increase(states: Seq<Seq<Slot>>, visits: Seq<int>, i: int, j: int)
    requires
        is_traversal_run(states, visits),
        0 <= i < j < visits.len(),
    ensures
        visits[i] < visits[j],
    decreases j - i,
{
    assert(is_first_live_from(states[j], traversal_cursor(visits, j), visits[j]));
    if i < j - 1 {
        lemma_visits_increase(states, visits, i, j - 1);
        assert(is_first_live_from(states[j - 1], traversal_cursor(visits, j - 1), visits[j - 1]));
    }
}

} // verus!
