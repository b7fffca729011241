use hashtable::chained::Chained;
use hashtable::separate_chaining::HashMap;

#[test]
fn chained_new() {
    let chained: Chained<i32, i32> = Chained::new();
    assert_eq!(chained.capacity(), 0);
    assert_eq!(chained.len(), 0);
    assert!(chained.is_empty());
}

#[test]
fn chained_operations() {
    let mut chained = Chained::new();

    chained.insert("foo", 10);
    assert_eq!(chained.len(), 1);
    assert!(!chained.is_empty());
    assert_eq!(chained.get("foo"), Some(&10));
    assert_eq!(chained.get("bar"), None);

    chained.insert("foo", 20);
    assert_eq!(chained.len(), 1);
    assert_eq!(chained.get("foo"), Some(&20));

    chained.remove("foo");
    assert_eq!(chained.len(), 0);
    assert!(chained.is_empty());
    assert_eq!(chained.get("foo"), None);
}

#[test]
fn separate_chaining_new() {
    let chained: HashMap<i32, i32> = HashMap::new();
    assert_eq!(chained.capacity(), 0);
    assert_eq!(chained.len(), 0);
    assert!(chained.is_empty());
}

#[test]
fn separate_chaining_operations() {
    let mut chained = HashMap::new();

    chained.insert("foo", 10);
    assert_eq!(chained.len(), 1);
    assert!(!chained.is_empty());
    assert_eq!(chained.get("foo"), Some(&10));
    assert_eq!(chained.get("bar"), None);

    chained.insert("foo", 20);
    assert_eq!(chained.len(), 1);
    assert_eq!(chained.get("foo"), Some(&20));

    chained.remove("foo");
    assert_eq!(chained.len(), 0);
    assert!(chained.is_empty());
    assert_eq!(chained.get("foo"), None);
}

#[test]
fn scenario_foo_bar_returns() {
    let mut table: Chained<&str, i32> = Chained::new();
    assert_eq!(table.insert("foo", 10), None);
    assert_eq!(table.len(), 1);
    assert_eq!(table.get("foo"), Some(&10));
    assert_eq!(table.get("bar"), None);
    assert_eq!(table.insert("foo", 20), Some(10));
    assert_eq!(table.len(), 1);
    assert_eq!(table.get("foo"), Some(&20));
    assert_eq!(table.remove("foo"), Some(20));
    assert_eq!(table.len(), 0);
    assert_eq!(table.get("foo"), None);
}

#[test]
fn empty_table_yields_nothing() {
    let table: HashMap<u64, u64> = HashMap::new();
    assert_eq!(table.len(), 0);
    assert!(table.is_empty());
    assert_eq!(table.get(7), None);
    assert!(!table.contains_key(0));

    let chained: Chained<&str, u32> = Chained::new();
    assert_eq!(chained.get("anything"), None);
}

#[test]
fn insert_then_get() {
    let mut table: HashMap<u64, i64> = HashMap::new();
    assert_eq!(table.insert(3, -30), None);
    assert_eq!(table.insert(4, 40), None);
    assert_eq!(table.get(3), Some(&-30));
    assert_eq!(table.get(4), Some(&40));
    assert_eq!(table.get(5), None);
    assert!(table.contains_key(3));
    assert!(!table.contains_key(5));
    assert_eq!(table.len(), 2);
}

#[test]
fn insert_overwrite_returns_previous() {
    let mut table: HashMap<u64, u64> = HashMap::new();
    assert_eq!(table.insert(5, 1), None);
    assert_eq!(table.len(), 1);
    assert_eq!(table.insert(5, 2), Some(1));
    assert_eq!(table.len(), 1);
    assert_eq!(table.get(5), Some(&2));
}

#[test]
fn remove_round_trip() {
    let mut table: HashMap<u32, u32> = HashMap::new();
    table.insert(8, 80);
    table.insert(9, 90);
    assert_eq!(table.len(), 2);

    assert_eq!(table.remove(8), Some(80));
    assert_eq!(table.get(8), None);
    assert_eq!(table.len(), 1);

    assert_eq!(table.remove(8), None);
    assert_eq!(table.len(), 1);
    assert_eq!(table.get(9), Some(&90));
}

#[test]
fn hundred_distinct_keys_survive_resizes() {
    let mut table: HashMap<i32, i32> = HashMap::new();
    for k in 0..100 {
        assert_eq!(table.insert(k, k * 3), None);
        assert_eq!(table.len(), (k + 1) as usize);
    }
    assert_eq!(table.len(), 100);
    for k in 0..100 {
        assert_eq!(table.get(k), Some(&(k * 3)));
    }
    assert_eq!(table.get(100), None);
}

#[test]
fn negative_integer_keys() {
    let mut table: Chained<i32, i32> = Chained::new();
    for k in -50..50 {
        assert_eq!(table.insert(k, k - 1), None);
    }
    assert_eq!(table.len(), 100);
    for k in -50..50 {
        assert_eq!(table.get(k), Some(&(k - 1)));
        assert_eq!(table.remove(k), Some(k - 1));
    }
    assert!(table.is_empty());
}

#[test]
fn string_keys() {
    let mut table: HashMap<String, u64> = HashMap::new();
    assert_eq!(table.insert(String::from("alpha"), 1), None);
    assert_eq!(table.insert(String::from("beta"), 2), None);
    assert_eq!(table.insert(String::from("alpha"), 11), Some(1));
    assert_eq!(table.get(String::from("alpha")), Some(&11));
    assert_eq!(table.get(String::from("beta")), Some(&2));
    assert_eq!(table.get(String::from("gamma")), None);
    assert_eq!(table.remove(String::from("beta")), Some(2));
    assert_eq!(table.len(), 1);
}

#[test]
fn capacity_follows_occupancy() {
    let mut table: HashMap<u64, u64> = HashMap::new();
    assert_eq!(table.capacity(), 0);

    // Growth is driven by the element count: a resize is triggered before an
    // insert whenever the table is empty or at least three quarters full,
    // and allocates one bucket for an empty table, else twice the count.
    table.insert(1, 1);
    assert_eq!(table.capacity(), 1);
    table.insert(2, 2);
    assert_eq!(table.capacity(), 2);
    table.insert(3, 3);
    assert_eq!(table.capacity(), 4);
    table.insert(4, 4);
    assert_eq!(table.capacity(), 6);
    table.insert(5, 5);
    assert_eq!(table.capacity(), 6);
    table.insert(6, 6);
    assert_eq!(table.capacity(), 10);
    assert_eq!(table.len(), 6);
}

#[test]
fn emptied_table_resizes_to_one_bucket() {
    let mut table: Chained<u64, u64> = Chained::new();
    table.insert(1, 10);
    assert_eq!(table.capacity(), 1);
    assert_eq!(table.remove(1), Some(10));
    assert_eq!(table.capacity(), 1);
    assert!(table.is_empty());
    table.insert(2, 20);
    assert_eq!(table.capacity(), 1);
    assert_eq!(table.get(2), Some(&20));
}

#[test]
fn default_is_empty() {
    let table: HashMap<u8, u8> = Default::default();
    assert!(table.is_empty());
    let chained: Chained<u16, u16> = Default::default();
    assert!(chained.is_empty());
    assert_eq!(chained.capacity(), 0);
}

#[test]
fn removal_within_shared_bucket() {
    // Keys in excess of the capacity share buckets; removing one key from a
    // chain must not disturb the others.
    let mut table: HashMap<usize, usize> = HashMap::new();
    for k in 0..30 {
        table.insert(k, 1000 + k);
    }
    for k in (0..30).step_by(3) {
        assert_eq!(table.remove(k), Some(1000 + k));
    }
    assert_eq!(table.len(), 20);
    for k in 0..30 {
        if k % 3 == 0 {
            assert_eq!(table.get(k), None);
        } else {
            assert_eq!(table.get(k), Some(&(1000 + k)));
        }
    }
}
