use strudel::{HashType, NumericHash, StHash};

/// Keys are equal when they agree modulo 1000, so 7 and 1007 are two
/// representatives of one key.
#[derive(Clone, Copy)]
struct ModThousand;

impl HashType for ModThousand {
    fn spec_hash(&self, key: usize) -> usize {
        key % 1000
    }

    fn spec_equal(&self, a: usize, b: usize) -> bool {
        a % 1000 == b % 1000
    }

    fn lemma_equivalence(&self) {}

    fn hash(&self, key: usize) -> usize {
        key % 1000
    }

    fn equal(&self, a: usize, b: usize) -> bool {
        a % 1000 == b % 1000
    }
}

fn numeric() -> StHash<NumericHash> {
    StHash::with_hash_type(NumericHash)
}

fn pairs<H: HashType>(t: &StHash<H>) -> Vec<(usize, usize)> {
    t.iter().into_vec()
}

#[test]
fn insert_get_and_len() {
    let mut t = numeric();
    assert!(t.is_empty());
    assert_eq!(t.insert(1, 10), None);
    assert_eq!(t.insert(2, 20), None);
    assert_eq!(t.len(), 2);
    assert!(!t.is_empty());
    assert_eq!(t.get(1), Some(10));
    assert_eq!(t.get(2), Some(20));
    assert_eq!(t.get(3), None);
    assert!(t.contains_key(2));
    assert!(!t.contains_key(3));
    assert_eq!(t.insert(1, 11), Some(10));
    assert_eq!(t.get(1), Some(11));
    assert_eq!(t.len(), 2);
}

#[test]
fn remove_and_remove_entry() {
    let mut t = numeric();
    let _ = t.insert(1, 10);
    let _ = t.insert(2, 20);
    assert_eq!(t.remove(1), Some(10));
    assert_eq!(t.remove(1), None);
    assert_eq!(t.remove_entry(2), Some((2, 20)));
    assert_eq!(t.remove_entry(2), None);
    assert!(t.is_empty());
    assert_eq!(t.get(2), None);
}

#[test]
fn iteration_agrees_with_lookup_after_mixed_operations() {
    let mut t = numeric();
    for k in 0..50usize {
        let _ = t.insert(k, k * 3);
    }
    for k in (0..50usize).step_by(3) {
        let _ = t.remove(k);
    }
    for k in (0..50usize).step_by(5) {
        t.update(k, k + 1000);
    }
    let _ = t.insert(7, 77);
    let all = pairs(&t);
    assert_eq!(all.len(), t.len());
    for (k, v) in all {
        assert_eq!(t.get(k), Some(v));
        assert_eq!(t.get_key_value(k), Some((k, v)));
    }
}

#[test]
fn reinserted_key_moves_to_the_end() {
    let (a, b, c) = (100usize, 200usize, 300usize);
    let mut t = numeric();
    let _ = t.insert(a, 1);
    let _ = t.insert(b, 2);
    let _ = t.insert(c, 3);
    assert_eq!(t.remove(b), Some(2));
    let _ = t.insert(b, 2);
    assert_eq!(pairs(&t), vec![(a, 1), (c, 3), (b, 2)]);
    assert_eq!(t.keys().into_vec(), vec![a, c, b]);
    assert_eq!(t.values().into_vec(), vec![1, 3, 2]);
}

#[test]
fn update_with_equal_representative_keeps_rank() {
    let mut t = StHash::with_hash_type(ModThousand);
    let _ = t.insert(7, 1);
    let _ = t.insert(8, 2);
    t.update(1007, 99);
    assert_eq!(pairs(&t), vec![(1007, 99), (8, 2)]);
    assert_eq!(t.get(7), Some(99));
    assert_eq!(t.get_key_value(2007), Some((1007, 99)));
    assert_eq!(t.get_nth(0), Some((1007, 99)));
    assert_eq!(t.len(), 2);
}

#[test]
fn insert_keeps_stored_representative() {
    let mut t = StHash::with_hash_type(ModThousand);
    let _ = t.insert(7, 1);
    assert_eq!(t.insert(2007, 5), Some(1));
    assert_eq!(t.get_key_value(7), Some((7, 5)));
    assert_eq!(t.remove_entry(3007), Some((7, 5)));
    assert!(t.is_empty());
}

#[test]
fn update_of_absent_key_inserts() {
    let mut t = numeric();
    t.update(5, 50);
    assert_eq!(t.get(5), Some(50));
    assert_eq!(t.get_nth(0), Some((5, 50)));
    assert_eq!(t.insert_counter(), 1);
}

#[test]
fn ranks_only_grow_until_clear() {
    let mut t = numeric();
    let _ = t.insert(10, 1);
    let _ = t.insert(20, 2);
    assert_eq!(t.insert_counter(), 2);
    // A hit still consumes a rank.
    let _ = t.insert(10, 3);
    assert_eq!(t.insert_counter(), 3);
    let _ = t.insert(30, 4);
    assert_eq!(t.get_nth(3), Some((30, 4)));
    let _ = t.remove(20);
    let _ = t.insert(20, 5);
    assert_eq!(t.get_nth(4), Some((20, 5)));
    assert_eq!(t.insert_ranks_from(0).into_vec(), vec![0, 3, 4]);
    // An in-place update consumes none.
    t.update(30, 6);
    assert_eq!(t.insert_counter(), 5);
    t.clear();
    assert!(t.is_empty());
    assert_eq!(t.insert_counter(), 0);
    let _ = t.insert(40, 7);
    assert_eq!(t.get_nth(0), Some((40, 7)));
}

#[test]
fn get_nth_bounds() {
    let mut t = numeric();
    let _ = t.insert(1, 10);
    let _ = t.insert(2, 20);
    let _ = t.insert(3, 30);
    let _ = t.remove(2);
    assert_eq!(t.get_nth(0), Some((1, 10)));
    assert_eq!(t.get_nth(1), None);
    assert_eq!(t.get_nth(2), Some((3, 30)));
    assert_eq!(t.get_nth(3), None);
    assert_eq!(t.get_nth(usize::MAX), None);
}

#[test]
fn first_last_and_rank_bounds() {
    let mut t = numeric();
    assert_eq!(t.first(), None);
    assert_eq!(t.last(), None);
    assert_eq!(t.min_insert_rank(), 0);
    assert_eq!(t.max_insert_rank(), 0);
    let _ = t.insert(1, 10);
    let _ = t.insert(2, 20);
    let _ = t.insert(3, 30);
    assert_eq!(t.first(), Some((1, 10)));
    assert_eq!(t.last(), Some((3, 30)));
    assert_eq!(t.min_insert_rank(), 0);
    assert_eq!(t.max_insert_rank(), 2);
    let _ = t.remove(1);
    let _ = t.insert(2, 200);
    assert_eq!(t.first(), Some((2, 200)));
    assert_eq!(t.last(), Some((3, 30)));
    assert_eq!(t.min_insert_rank(), 1);
    assert_eq!(t.max_insert_rank(), 2);
    let _ = t.remove(3);
    assert_eq!(t.max_insert_rank(), 1);
    assert_eq!(t.insert_ranks_from(0).into_vec(), vec![1]);
    assert_eq!(t.insert_ranks_from(100).into_vec(), Vec::<usize>::new());
}

#[test]
fn shift_removes_the_oldest_entry() {
    let mut t = numeric();
    assert_eq!(t.shift(), None);
    let _ = t.insert(5, 50);
    let _ = t.insert(6, 60);
    assert_eq!(t.shift(), Some((5, 50)));
    assert_eq!(t.shift(), Some((6, 60)));
    assert_eq!(t.shift(), None);
    assert!(t.is_empty());
}

#[test]
fn bounded_key_and_value_export() {
    let mut t = numeric();
    for k in 1..=5usize {
        let _ = t.insert(k, k * 10);
    }
    assert_eq!(t.keys_upto(3), vec![1, 2, 3]);
    assert_eq!(t.values_upto(2), vec![10, 20]);
    assert_eq!(t.keys_upto(10), vec![1, 2, 3, 4, 5]);
    assert_eq!(t.values_upto(0), Vec::<usize>::new());
}

#[test]
fn copy_is_deep_and_independent() {
    let mut t = StHash::with_capacity_and_hash_type(4, ModThousand);
    let _ = t.insert(1, 10);
    let _ = t.insert(2, 20);
    let _ = t.insert(3, 30);
    let _ = t.remove(2);
    let mut c = t.copy();
    assert_eq!(pairs(&c), pairs(&t));
    for k in 0..5usize {
        assert_eq!(c.get(k), t.get(k));
    }
    assert_eq!(c.insert_counter(), t.insert_counter());
    let _ = c.insert(4, 40);
    let _ = c.remove(1);
    assert_eq!(pairs(&t), vec![(1, 10), (3, 30)]);
    let _ = t.insert(9, 90);
    assert_eq!(pairs(&c), vec![(3, 30), (4, 40)]);
    // The copy keeps the key semantics.
    assert_eq!(c.get(1003), Some(30));
}

#[test]
fn memsize_grows_with_contents() {
    let mut t = numeric();
    let empty = t.estimated_memsize();
    for k in 0..100usize {
        let _ = t.insert(k, k);
    }
    assert!(t.estimated_memsize() > empty);
}

#[test]
fn items_hand_out_in_order() {
    let mut t = numeric();
    let _ = t.insert(1, 10);
    let _ = t.insert(2, 20);
    let mut it = t.iter();
    assert_eq!(it.len(), 2);
    assert_eq!(it.next(), Some((1, 10)));
    assert_eq!(it.len(), 1);
    assert_eq!(it.next(), Some((2, 20)));
    assert_eq!(it.next(), None);
    assert_eq!(it.len(), 0);
}

#[test]
fn items_from_both_ends() {
    let mut t = numeric();
    for k in 1..=4usize {
        let _ = t.insert(k, k * 10);
    }
    let mut it = t.iter();
    assert_eq!(it.next_back(), Some((4, 40)));
    assert_eq!(it.next(), Some((1, 10)));
    assert_eq!(it.into_vec(), vec![(2, 20), (3, 30)]);
    let mut keys = t.keys();
    assert_eq!(keys.next_back(), Some(4));
    assert_eq!(keys.next(), Some(1));
    assert_eq!(keys.len(), 2);
    let mut values = t.values();
    assert_eq!(values.next_back(), Some(40));
    assert_eq!(values.next_back(), Some(30));
    assert_eq!(values.next_back(), Some(20));
    assert_eq!(values.next_back(), Some(10));
    assert_eq!(values.next_back(), None);
    assert_eq!(values.next(), None);
    let mut ranks = t.insert_ranks_from(2);
    assert_eq!(ranks.next(), Some(2));
    assert_eq!(ranks.next_back(), Some(3));
    assert_eq!(ranks.next(), None);
}

#[test]
fn reserve_keeps_contents() {
    let mut t = numeric();
    let _ = t.insert(1, 10);
    t.reserve(100);
    assert_eq!(pairs(&t), vec![(1, 10)]);
    assert_eq!(t.insert_counter(), 1);
}

#[test]
fn clears_are_counted() {
    let mut t = numeric();
    assert_eq!(t.clears(), 0);
    let _ = t.insert(1, 10);
    let _ = t.remove(1);
    assert_eq!(t.clears(), 0);
    t.clear();
    t.clear();
    assert_eq!(t.clears(), 2);
    assert_eq!(t.copy().clears(), 2);
}
