use strudel::{Entry, NumericHash, StHash};

fn table() -> StHash<NumericHash> {
    let mut t = StHash::with_hash_type(NumericHash);
    let _ = t.insert(1, 10);
    let _ = t.insert(2, 20);
    t
}

#[test]
fn entry_of_present_key_is_occupied() {
    let mut t = table();
    match t.entry(2) {
        Entry::Occupied(o) => {
            assert_eq!(o.key(), 2);
            assert_eq!(o.get(), 20);
            assert_eq!(o.insert(&mut t, 21), 20);
        }
        Entry::Vacant(_) => panic!("key 2 is present"),
    }
    assert_eq!(t.get(2), Some(21));
    // Replacing through an entry consumes no rank.
    assert_eq!(t.insert_counter(), 2);
}

#[test]
fn entry_of_absent_key_is_vacant() {
    let mut t = table();
    match t.entry(3) {
        Entry::Vacant(v) => {
            assert_eq!(v.key(), 3);
            assert_eq!(v.insert(&mut t, 30), 30);
        }
        Entry::Occupied(_) => panic!("key 3 is absent"),
    }
    assert_eq!(t.get_nth(2), Some((3, 30)));
    match t.entry(4) {
        Entry::Vacant(v) => assert_eq!(v.into_key(), 4),
        Entry::Occupied(_) => panic!("key 4 is absent"),
    }
}

#[test]
fn occupied_entry_removal() {
    let mut t = table();
    match t.entry(1) {
        Entry::Occupied(o) => assert_eq!(o.remove(&mut t), 10),
        Entry::Vacant(_) => panic!("key 1 is present"),
    }
    match t.entry(2) {
        Entry::Occupied(o) => assert_eq!(o.remove_entry(&mut t), (2, 20)),
        Entry::Vacant(_) => panic!("key 2 is present"),
    }
    assert!(t.is_empty());
}

#[test]
fn or_insert_keeps_present_and_fills_absent() {
    let mut t = table();
    let e = t.entry(1);
    assert_eq!(e.key(), 1);
    assert_eq!(e.or_insert(&mut t, 99), 10);
    let e = t.entry(7);
    assert_eq!(e.or_insert(&mut t, 70), 70);
    assert_eq!(t.iter().into_vec(), vec![(1, 10), (2, 20), (7, 70)]);
}

#[test]
fn or_insert_with_and_with_key() {
    let mut t = table();
    assert_eq!(t.entry(1).or_insert_with(&mut t, || 99), 10);
    assert_eq!(t.entry(5).or_insert_with(&mut t, || 55), 55);
    assert_eq!(t.entry(6).or_insert_with_key(&mut t, |k| k * 100), 600);
    assert_eq!(t.entry(2).or_insert_with_key(&mut t, |k| k * 100), 20);
    assert_eq!(t.iter().into_vec(), vec![(1, 10), (2, 20), (5, 55), (6, 600)]);
}

#[test]
fn and_modify_changes_only_present_entries() {
    let mut t = table();
    let e = t.entry(2).and_modify(&mut t, |v| v + 1);
    assert_eq!(e.or_insert(&mut t, 0), 21);
    assert_eq!(t.get(2), Some(21));
    let e = t.entry(3).and_modify(&mut t, |v| v + 1);
    assert_eq!(e.or_insert(&mut t, 7), 7);
    assert_eq!(t.iter().into_vec(), vec![(1, 10), (2, 21), (3, 7)]);
    // Modifying in place consumes no rank.
    assert_eq!(t.insert_counter(), 3);
}
