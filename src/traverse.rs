//! Traversal that survives mutation from its own callback, and the decisions
//! of a callback-driven update.
//!
//! A traversal keeps only a cursor: the least rank it has not yet looked at.
//! Each step visits the least live rank at or after the cursor, hands that
//! entry to the callback, and moves the cursor just past it. Ranks are never
//! reused, so entries inserted by the callback get higher ranks and are
//! reached later, entries it removes are simply no longer live when the
//! cursor gets there, and no rank is visited twice.
//!
//! Ranks fall back only when the callback clears the table. The checking
//! traversal notices that through the table's clear count and resumes from
//! the lowest live rank; the plain one goes on past the rank it reached.
//! `ST_CHECK` goes on in both, like `ST_CONTINUE`.
use vstd::prelude::*;

use crate::hash_type::HashType;
use crate::model::{
    after_insert, after_remove, after_update, is_first_live_from, none_live_from, Slot,
};
use crate::st::StHash;
use crate::typedefs::{spec_retval_of, st_retval};

verus! {

/// What a traversal does once its callback has returned.
#[derive(Clone, Copy, Debug, PartialEq, Eq, Structural)]
pub enum ForeachAction {
    /// Go on with the next rank.
    Continue,
    /// End the traversal.
    Stop,
    /// Delete the entry just visited, then go on.
    Delete,
}

/// The action for a callback result: `ST_STOP` stops, `ST_DELETE` deletes,
/// and everything else (`ST_CONTINUE`, `ST_CHECK`, a result that is no
/// verdict) goes on.
pub open spec fn spec_foreach_action(code: i32) -> ForeachAction {
    match spec_retval_of(code) {
        Some(st_retval::ST_STOP) => ForeachAction::Stop,
        Some(st_retval::ST_DELETE) => ForeachAction::Delete,
        _ => ForeachAction::Continue,
    }
}

/// Decides what a traversal does with a callback result.
pub fn foreach_action(code: i32) -> (r: ForeachAction)
    ensures
        r == spec_foreach_action(code),
{
    match st_retval::from_code(code) {
        Some(st_retval::ST_STOP) => ForeachAction::Stop,
        Some(st_retval::ST_DELETE) => ForeachAction::Delete,
        _ => ForeachAction::Continue,
    }
}

/// The rank just past `rank`.
pub open spec fn rank_after(rank: usize) -> usize {
    if rank < usize::MAX {
        (rank + 1) as usize
    } else {
        usize::MAX
    }
}

/// `r` is where a traversal resumes in `slots` when the ranks have fallen
/// back: the lowest live rank, or 0 when nothing is live.
pub open spec fn is_lowest_live_or_zero(slots: Seq<Slot>, r: usize) -> bool {
    if none_live_from(slots, 0) {
        r == 0
    } else {
        is_first_live_from(slots, 0, r as int)
    }
}

/// The slots after an update callback returned `code`, having been shown
/// `(old_key, old_value)` (`existing` tells whether that was a stored entry)
/// and having left `(key, value)` in their place.
///
/// On `ST_CONTINUE` an unchanged existing entry stays as it is, a changed
/// value under the same key word is inserted, and a changed key word is
/// stored in place by `update`. On `ST_DELETE` an existing entry is removed.
/// Anything else leaves the table as it is.
pub open spec fn after_update_callback<H: HashType>(
    h: H,
    slots: Seq<Slot>,
    existing: bool,
    old_key: usize,
    old_value: usize,
    key: usize,
    value: usize,
    code: i32,
) -> Seq<Slot> {
    if spec_retval_of(code) == Some(st_retval::ST_CONTINUE) {
        if existing && key == old_key && value == old_value {
            slots
        } else if key == old_key {
            after_insert(h, slots, key, value)
        } else {
            after_update(h, slots, key, value)
        }
    } else if spec_retval_of(code) == Some(st_retval::ST_DELETE) && existing {
        after_remove(h, slots, old_key)
    } else {
        slots
    }
}

impl<H: HashType> StHash<H> {
    /// Carries out a traversal callback's result for the entry at `rank`
    /// whose key is `key`, and returns the rank to search from next, or `None`
    /// when the traversal ends.
    ///
    /// `clears_seen` is `clears()` as read before the callback ran. The plain
    /// traversal (`checking` false) always resumes just past `rank`. The
    /// checking traversal first checks whether the ranks have fallen back
    /// because the callback cleared the table; then every live entry is new
    /// and sits below the position reached, so it resumes from the lowest
    /// live rank instead.
    pub fn foreach_step(
        &mut self,
        rank: usize,
        key: usize,
        code: i32,
        checking: bool,
        clears_seen: u64,
    ) -> (r: Option<usize>)
        requires
            old(self).wf(),
        ensures
            final(self).wf(),
            final(self).spec_hash_type() == old(self).spec_hash_type(),
            final(self).spec_clears() == old(self).spec_clears(),
            spec_foreach_action(code) == ForeachAction::Stop ==> r.is_none() && final(self)@
                == old(self)@,
            spec_foreach_action(code) == ForeachAction::Continue ==> final(self)@ == old(self)@,
            spec_foreach_action(code) == ForeachAction::Delete ==> final(self)@ == after_remove(
                old(self).spec_hash_type(),
                old(self)@,
                key,
            ),
            spec_foreach_action(code) != ForeachAction::Stop ==> {
                &&& r.is_some()
                &&& if checking && old(self).spec_clears() != clears_seen {
                    is_lowest_live_or_zero(final(self)@, r.unwrap())
                } else {
                    r.unwrap() == rank_after(rank)
                }
            },
    {
        match foreach_action(code) {
            ForeachAction::Stop => {
                return None;
            },
            ForeachAction::Continue => {},
            ForeachAction::Delete => {
                let _ = self.remove(key);
            },
        }
        if checking && self.clears() != clears_seen {
            Some(self.min_insert_rank())
        } else if rank < usize::MAX {
            Some(rank + 1)
        } else {
            Some(usize::MAX)
        }
    }

    /// What an update callback is shown for `key`: whether an entry exists,
    /// and the stored key and value, or `key` and 0 when there is none.
    pub fn update_lookup(&self, key: usize) -> (r: (bool, usize, usize))
        requires
            self.wf(),
        ensures
            match self.get_key_value_spec(key) {
                Some(e) => r == (true, e.0, e.1),
                None => r == (false, key, 0usize),
            },
    {
        match self.get_key_value(key) {
            Some(e) => (true, e.0, e.1),
            None => (false, key, 0),
        }
    }

    /// Applies what an update callback returned; see `after_update_callback`.
    pub fn finish_update(
        &mut self,
        existing: bool,
        old_key: usize,
        old_value: usize,
        key: usize,
        value: usize,
        code: i32,
    )
        requires
            old(self).wf(),
        ensures
            final(self).wf(),
            final(self).spec_hash_type() == old(self).spec_hash_type(),
            final(self).spec_clears() == old(self).spec_clears(),
            final(self)@ == after_update_callback(
                old(self).spec_hash_type(),
                old(self)@,
                existing,
                old_key,
                old_value,
                key,
                value,
                code,
            ),
    {
        let verdict = st_retval::from_code(code);
        if verdict == Some(st_retval::ST_CONTINUE) {
            if existing && key == old_key && value == old_value {
            } else if key == old_key {
                let _ = self.insert(key, value);
            } else {
                self.update(key, value);
            }
        } else if verdict == Some(st_retval::ST_DELETE) && existing {
            let _ = self.remove(old_key);
        }
    }
}

} // verus!
