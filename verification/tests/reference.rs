use std::collections::BTreeSet;
use tree_set::TreeSet;

fn next_number(state: &mut u64) -> u64 {
    *state = state.wrapping_mul(6364136223846793005).wrapping_add(1442695040888963407);
    *state >> 33
}

#[test]
fn agrees_with_a_reference_set() {
    let mut state = 2024u64;
    let mut set = TreeSet::new();
    let mut reference = BTreeSet::new();
    for _ in 0..4000 {
        let value = (next_number(&mut state) % 200) as i32;
        if next_number(&mut state) % 3 == 0 {
            set.remove(&value);
            reference.remove(&value);
        } else {
            set.insert(value);
            reference.insert(value);
        }
        assert!(set.is_valid());
        assert_eq!(set.min(), reference.iter().next());
        assert_eq!(set.max(), reference.iter().next_back());
        let probe = (next_number(&mut state) % 200) as i32;
        assert_eq!(set.contains(&probe), reference.contains(&probe));
    }
    for value in -5..205 {
        assert_eq!(set.contains(&value), reference.contains(&value));
    }
}

#[test]
fn drains_like_a_reference_set() {
    let mut state = 7u64;
    let mut set = TreeSet::new();
    let mut reference = BTreeSet::new();
    for _ in 0..500 {
        let value = next_number(&mut state) % 1000;
        set.insert(value);
        reference.insert(value);
    }
    while let Some(&least) = set.min() {
        assert_eq!(Some(&least), reference.iter().next());
        set.remove(&least);
        reference.remove(&least);
        assert!(set.is_valid());
        if let Some(&greatest) = set.max() {
            assert_eq!(Some(&greatest), reference.iter().next_back());
            set.remove(&greatest);
            reference.remove(&greatest);
            assert!(set.is_valid());
        }
    }
    assert!(reference.is_empty());
}

#[test]
fn height_stays_logarithmic_under_churn() {
    let mut state = 99u64;
    let mut set = TreeSet::new();
    let mut reference = BTreeSet::new();
    for round in 0..3000 {
        let value = next_number(&mut state) % 5000;
        if round % 4 == 3 {
            set.remove(&value);
            reference.remove(&value);
        } else {
            set.insert(value);
            reference.insert(value);
        }
        let height = set.height() as u32;
        // 2^(h/2) <= n + 1
        assert!(1u64 << (height / 2) <= reference.len() as u64 + 1);
    }
    assert!(set.is_valid());
}
