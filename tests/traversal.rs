use strudel::typedefs::st_retval;
use strudel::{foreach_action, ForeachAction, NumericHash, StHash};

const CONTINUE: i32 = 0;
const STOP: i32 = 1;
const DELETE: i32 = 2;
const CHECK: i32 = 3;

/// Runs a traversal the way a caller-driven loop does, letting `callback`
/// see and change the table between steps. Returns the visited pairs.
fn traverse(
    t: &mut StHash<NumericHash>,
    checking: bool,
    mut callback: impl FnMut(&mut StHash<NumericHash>, usize, usize) -> i32,
) -> Vec<(usize, usize)> {
    let mut visited = Vec::new();
    let mut cursor = 0usize;
    while let Some(rank) = t.next_live_from(cursor) {
        let (key, value) = t.get_nth(rank).unwrap();
        visited.push((key, value));
        let clears_seen = t.clears();
        let code = callback(t, key, value);
        match t.foreach_step(rank, key, code, checking, clears_seen) {
            Some(next) => cursor = next,
            None => break,
        }
    }
    visited
}

fn abc() -> StHash<NumericHash> {
    let mut t = StHash::with_hash_type(NumericHash);
    let _ = t.insert(1, 1);
    let _ = t.insert(2, 2);
    let _ = t.insert(3, 3);
    t
}

#[test]
fn traversal_survives_delete_and_insert_from_callback() {
    let mut t = abc();
    let visited = traverse(&mut t, false, |t, key, _| {
        if key == 2 {
            DELETE
        } else {
            if key == 3 {
                let _ = t.insert(4, 4);
            }
            CONTINUE
        }
    });
    assert_eq!(visited, vec![(1, 1), (2, 2), (3, 3), (4, 4)]);
    assert_eq!(t.iter().into_vec(), vec![(1, 1), (3, 3), (4, 4)]);
}

#[test]
fn traversal_skips_entry_deleted_before_it_is_reached() {
    let mut t = abc();
    let visited = traverse(&mut t, false, |t, key, _| {
        if key == 1 {
            let _ = t.remove(2);
        }
        CONTINUE
    });
    assert_eq!(visited, vec![(1, 1), (3, 3)]);
}

#[test]
fn traversal_stops_on_stop() {
    let mut t = abc();
    let visited = traverse(&mut t, false, |_, key, _| if key == 2 { STOP } else { CONTINUE });
    assert_eq!(visited, vec![(1, 1), (2, 2)]);
    assert_eq!(t.len(), 3);
}

#[test]
fn check_goes_on_in_both_traversals() {
    let mut t = abc();
    let visited = traverse(&mut t, false, |_, _, _| CHECK);
    assert_eq!(visited, vec![(1, 1), (2, 2), (3, 3)]);
    let visited = traverse(&mut t, true, |_, _, _| CHECK);
    assert_eq!(visited, vec![(1, 1), (2, 2), (3, 3)]);
}

#[test]
fn checking_traversal_restarts_after_clear() {
    // At the last entry the callback clears the table and inserts a new key,
    // which gets rank 0, below the position reached.
    let clear_and_insert = |t: &mut StHash<NumericHash>, key: usize, _: usize| {
        if key == 3 {
            t.clear();
            let _ = t.insert(9, 90);
        }
        CHECK
    };
    let mut t = abc();
    let visited = traverse(&mut t, true, clear_and_insert);
    assert_eq!(visited, vec![(1, 1), (2, 2), (3, 3), (9, 90)]);
    // The plain traversal does not look back.
    let mut t = abc();
    let visited = traverse(&mut t, false, clear_and_insert);
    assert_eq!(visited, vec![(1, 1), (2, 2), (3, 3)]);
    assert_eq!(t.iter().into_vec(), vec![(9, 90)]);
}

#[test]
fn checking_traversal_after_clear_of_empty_result() {
    let mut t = abc();
    let visited = traverse(&mut t, true, |t, _, _| {
        t.clear();
        CONTINUE
    });
    assert_eq!(visited, vec![(1, 1)]);
    assert!(t.is_empty());
}

#[test]
fn traversal_after_removing_everything_ahead() {
    let mut t = abc();
    let visited = traverse(&mut t, false, |t, key, _| {
        if key == 1 {
            let _ = t.remove(2);
            let _ = t.remove(3);
        }
        DELETE
    });
    assert_eq!(visited, vec![(1, 1)]);
    assert!(t.is_empty());
}

#[test]
fn foreach_actions() {
    assert_eq!(foreach_action(CONTINUE), ForeachAction::Continue);
    assert_eq!(foreach_action(STOP), ForeachAction::Stop);
    assert_eq!(foreach_action(DELETE), ForeachAction::Delete);
    assert_eq!(foreach_action(CHECK), ForeachAction::Continue);
    assert_eq!(foreach_action(17), ForeachAction::Continue);
}

#[test]
fn retval_codes_round_trip() {
    for v in [
        st_retval::ST_CONTINUE,
        st_retval::ST_STOP,
        st_retval::ST_DELETE,
        st_retval::ST_CHECK,
    ] {
        assert_eq!(st_retval::from_code(v.code()), Some(v));
    }
    assert_eq!(st_retval::ST_DELETE.code(), 2);
    assert_eq!(st_retval::from_code(-1), None);
}

#[test]
fn update_callback_outcomes() {
    let mut t = abc();
    // Unchanged existing entry: nothing happens, no rank is consumed.
    let (existing, k, v) = t.update_lookup(2);
    assert_eq!((existing, k, v), (true, 2, 2));
    t.finish_update(existing, k, v, k, v, CONTINUE);
    assert_eq!(t.insert_counter(), 3);
    // New value under the same key word.
    t.finish_update(existing, k, v, k, 20, CONTINUE);
    assert_eq!(t.get(2), Some(20));
    // Absent key is inserted.
    let (existing, k, v) = t.update_lookup(9);
    assert_eq!((existing, k, v), (false, 9, 0));
    t.finish_update(existing, k, v, k, 90, CONTINUE);
    assert_eq!(t.get(9), Some(90));
    // Delete of an existing entry.
    let (existing, k, v) = t.update_lookup(1);
    t.finish_update(existing, k, v, k, v, DELETE);
    assert_eq!(t.get(1), None);
    // Delete of an absent key changes nothing; neither does STOP.
    let before = t.iter().into_vec();
    t.finish_update(false, 50, 0, 50, 0, DELETE);
    t.finish_update(true, 3, 3, 3, 33, STOP);
    assert_eq!(t.iter().into_vec(), before);
}
