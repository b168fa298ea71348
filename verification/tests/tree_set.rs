use tree_set::TreeSet;

#[test]
fn tree_set_test() {
    let mut set = TreeSet::new();

    set.insert(6);
    set.insert(3);
    set.insert(0);
    set.insert(7);
    set.insert(4);
    set.insert(1);
    set.insert(8);
    set.insert(5);
    set.insert(2);
    set.insert(9);

    assert!(set.contains(&6));
    set.remove(&6);
    assert!(!set.contains(&6));
    assert!(set.contains(&3));
    set.remove(&3);
    assert!(!set.contains(&3));
    assert!(set.contains(&0));
    set.remove(&0);
    assert!(!set.contains(&0));
    assert!(set.contains(&7));
    set.remove(&7);
    assert!(!set.contains(&7));
    assert!(set.contains(&4));
    set.remove(&4);
    assert!(!set.contains(&4));
    assert!(set.contains(&1));
    set.remove(&1);
    assert!(!set.contains(&1));
    assert!(set.contains(&8));
    set.remove(&8);
    assert!(!set.contains(&8));
    assert!(set.contains(&5));
    set.remove(&5);
    assert!(!set.contains(&5));
    assert!(set.contains(&2));
    set.remove(&2);
    assert!(!set.contains(&2));
    assert!(set.contains(&9));
    set.remove(&9);
    assert!(!set.contains(&9));
}

#[test]
fn four_inserts_are_found() {
    let mut set = TreeSet::new();
    for value in [10, 15, 4, 7] {
        set.insert(value);
    }
    assert!(set.contains(&7));
    assert!(set.contains(&10));
    assert!(set.contains(&15));
    assert!(!set.contains(&3));
    assert!(set.is_valid());
}

#[test]
fn removal_leaves_the_others() {
    let mut set = TreeSet::new();
    for value in [10, 15, 4, 7] {
        set.insert(value);
    }
    set.remove(&15);
    assert!(!set.contains(&15));
    assert!(set.contains(&4));
    assert!(set.contains(&7));
    assert!(set.contains(&10));
    assert!(!set.contains(&3));
    assert!(set.is_valid());
}

#[test]
fn ten_values_removed_one_by_one() {
    let values = [6, 3, 0, 7, 4, 1, 8, 5, 2, 9];
    let mut set = TreeSet::new();
    for value in values {
        set.insert(value);
        assert!(set.is_valid());
    }
    for (done, value) in values.iter().enumerate() {
        set.remove(value);
        assert!(set.is_valid());
        for gone in &values[..=done] {
            assert!(!set.contains(gone));
        }
        for kept in &values[done + 1..] {
            assert!(set.contains(kept));
        }
    }
    assert_eq!(set.min(), None);
    assert_eq!(set.max(), None);
    assert_eq!(set.root(), None);
    assert_eq!(set.height(), 0);
}

#[test]
fn increasing_run_stays_low() {
    let mut set = TreeSet::new();
    for value in 1..=1000 {
        set.insert(value);
    }
    assert!(set.is_valid());
    // 2^(h/2) <= n + 1 = 1001 < 2^10, and a tree of height h holds at most 2^h - 1 values
    assert!(set.height() <= 19);
    assert!(set.height() >= 10);
    assert_eq!(set.min(), Some(&1));
    assert_eq!(set.max(), Some(&1000));
}

#[test]
fn decreasing_run_stays_low() {
    let mut set = TreeSet::new();
    for value in (1..=1000).rev() {
        set.insert(value);
    }
    assert!(set.is_valid());
    assert!(set.height() <= 19);
    assert!(set.height() >= 10);
}

#[test]
fn removing_the_root_until_empty() {
    let mut set = TreeSet::new();
    for value in 0..64 {
        set.insert((value * 37) % 64);
    }
    let mut left = 64;
    while let Some(&top) = set.root() {
        assert!(set.contains(&top));
        set.remove(&top);
        left -= 1;
        assert!(!set.contains(&top));
        assert!(set.is_valid());
    }
    assert_eq!(left, 0);
    assert_eq!(set.min(), None);
    assert_eq!(set.height(), 0);
}

#[test]
fn empty_set_holds_nothing() {
    let mut set: TreeSet<i32> = TreeSet::new();
    assert!(set.is_valid());
    assert!(!set.contains(&0));
    assert_eq!(set.min(), None);
    assert_eq!(set.max(), None);
    assert_eq!(set.root(), None);
    assert_eq!(set.height(), 0);
    set.remove(&0);
    assert!(set.is_valid());
    assert_eq!(set.root(), None);
}

#[test]
fn default_is_empty() {
    let set: TreeSet<u8> = TreeSet::default();
    assert!(set.is_valid());
    assert_eq!(set.min(), None);
    assert_eq!(set.height(), 0);
}

#[test]
fn single_value() {
    let mut set = TreeSet::new();
    set.insert(42u64);
    assert!(set.is_valid());
    assert_eq!(set.root(), Some(&42));
    assert_eq!(set.min(), Some(&42));
    assert_eq!(set.max(), Some(&42));
    assert_eq!(set.height(), 1);
    set.remove(&42);
    assert!(set.is_valid());
    assert_eq!(set.root(), None);
    assert!(!set.contains(&42));
}

#[test]
fn insert_twice_is_insert_once() {
    let mut once = TreeSet::new();
    let mut twice = TreeSet::new();
    for value in [5, 1, 9, 3, 7, 2, 8] {
        once.insert(value);
        twice.insert(value);
        twice.insert(value);
    }
    assert!(twice.is_valid());
    assert_eq!(format!("{:?}", once), format!("{:?}", twice));
    let shape = format!("{:?}", twice);
    twice.insert(3);
    assert_eq!(format!("{:?}", twice), shape);
}

#[test]
fn remove_twice_is_remove_once() {
    let mut once = TreeSet::new();
    let mut twice = TreeSet::new();
    for value in 0..20 {
        once.insert(value);
        twice.insert(value);
    }
    for value in [4, 11, 0, 19] {
        once.remove(&value);
        twice.remove(&value);
        twice.remove(&value);
    }
    assert!(twice.is_valid());
    assert_eq!(format!("{:?}", once), format!("{:?}", twice));
    let shape = format!("{:?}", twice);
    twice.remove(&100);
    assert_eq!(format!("{:?}", twice), shape);
}

#[test]
fn strings_are_ordered_too() {
    let mut set = TreeSet::new();
    for word in ["pear", "apple", "quince", "fig", "apple"] {
        set.insert(word.to_string());
    }
    assert!(set.is_valid());
    assert_eq!(set.min().map(|s| s.as_str()), Some("apple"));
    assert_eq!(set.max().map(|s| s.as_str()), Some("quince"));
    set.remove(&"apple".to_string());
    assert!(!set.contains(&"apple".to_string()));
    assert_eq!(set.min().map(|s| s.as_str()), Some("fig"));
}

#[test]
fn three_in_a_row_are_rotated() {
    let mut set = TreeSet::new();
    set.insert(1);
    assert_eq!((set.root(), set.height()), (Some(&1), 1));
    set.insert(2);
    assert_eq!((set.root(), set.height()), (Some(&1), 2));
    set.insert(3);
    assert_eq!((set.root(), set.height()), (Some(&2), 2));
    assert!(set.is_valid());
}

#[test]
fn seven_in_a_row() {
    let mut set = TreeSet::new();
    for value in 1..=7 {
        set.insert(value);
        assert!(set.is_valid());
    }
    // 2 at the root, 1 and the red 4 below it, 3 and 6 below 4, the red 5 and 7 below 6
    assert_eq!(set.root(), Some(&2));
    assert_eq!(set.height(), 4);
    assert_eq!(set.min(), Some(&1));
    assert_eq!(set.max(), Some(&7));
}

#[test]
fn ends_of_the_number_range() {
    let mut set = TreeSet::new();
    for value in [0, i64::MAX, i64::MIN, -1, 1] {
        set.insert(value);
    }
    assert!(set.is_valid());
    assert_eq!(set.min(), Some(&i64::MIN));
    assert_eq!(set.max(), Some(&i64::MAX));
    set.remove(&i64::MIN);
    set.remove(&i64::MAX);
    assert_eq!(set.min(), Some(&-1));
    assert_eq!(set.max(), Some(&1));
    assert!(set.is_valid());
}

#[test]
fn pairs_are_ordered_by_their_first_part_first() {
    let mut set = TreeSet::new();
    for pair in [(2, 'a'), (1, 'z'), (2, 'b'), (1, 'a'), (3, 'c'), (1, 'z')] {
        set.insert(pair);
    }
    assert!(set.is_valid());
    assert_eq!(set.min(), Some(&(1, 'a')));
    assert_eq!(set.max(), Some(&(3, 'c')));
    assert!(set.contains(&(2, 'b')));
    assert!(!set.contains(&(2, 'c')));
    set.remove(&(1, 'a'));
    assert_eq!(set.min(), Some(&(1, 'z')));
}
