use price_notifier::backup::{backup, plain_of, restore, store_of, BackupError};
use price_notifier::price::Price;
use price_notifier::store::TriggerStore;
use price_notifier::trigger::Trigger;
use std::collections::HashMap;

fn price(x: f64) -> Price {
    Price::from_bits(x.to_bits()).expect("a number")
}

fn lower(x: f64) -> Trigger {
    Trigger::Lower(price(x))
}

fn higher(x: f64) -> Trigger {
    Trigger::Higher(price(x))
}

fn sorted_snapshot(store: &TriggerStore) -> Vec<(i64, Vec<Trigger>)> {
    let mut snapshot = store.snapshot_for_iteration();
    snapshot.sort_by_key(|entry| entry.0);
    snapshot
}

#[test]
fn the_empty_store_comes_back_empty() {
    let store = TriggerStore::new();
    let bytes = backup(&store).expect("bytes");
    assert_eq!(bytes, vec![0u8; 8]);
    let (restored, failure) = restore(Some(&bytes));
    assert_eq!(failure, None);
    assert!(restored.is_empty());
}

#[test]
fn a_store_with_both_directions_comes_back_as_it_was() {
    let mut store = TriggerStore::new();
    store.add(1, lower(5.0));
    store.add(1, higher(10.0));
    store.add(1, higher(5.0));
    store.add(-7, lower(0.01));
    store.add(i64::MAX, higher(1.0e12));
    store.add(i64::MIN, lower(-3.5));
    let bytes = backup(&store).expect("bytes");
    let (restored, failure) = restore(Some(&bytes));
    assert_eq!(failure, None);
    assert_eq!(sorted_snapshot(&restored), sorted_snapshot(&store));
    assert_eq!(restored.list(1), vec![lower(5.0), higher(5.0), higher(10.0)]);
    assert_eq!(backup(&restored).expect("bytes").len(), bytes.len());
}

#[test]
fn the_bytes_of_a_small_store() {
    let mut store = TriggerStore::new();
    store.add(7, higher(5.0));
    store.add(7, lower(5.0));
    let bytes = backup(&store).expect("bytes");
    let expected: Vec<u8> = vec![
        1, 0, 0, 0, 0, 0, 0, 0, // one subscriber
        7, 0, 0, 0, 0, 0, 0, 0, // its number
        2, 0, 0, 0, 0, 0, 0, 0, // two conditions
        0, 0, 0, 0, // lower
        0, 0, 0, 0, 0, 0, 0x14, 0x40, // the threshold
        1, 0, 0, 0, // higher
        0, 0, 0, 0, 0, 0, 0x14, 0x40, // the threshold
    ];
    assert_eq!(bytes, expected);
}

#[test]
fn a_missing_backup_gives_an_empty_store() {
    let (restored, failure) = restore(None);
    assert_eq!(failure, Some(BackupError::Missing));
    assert!(restored.is_empty());
}

#[test]
fn bytes_that_are_no_backup_give_an_empty_store() {
    let mut store = TriggerStore::new();
    store.add(7, lower(5.0));
    let bytes = backup(&store).expect("bytes");
    for cut in 0..bytes.len() {
        let (restored, failure) = restore(Some(&bytes[..cut]));
        assert_eq!(failure, Some(BackupError::Corrupt));
        assert!(restored.is_empty());
    }
    let (restored, failure) = restore(Some(&[0xff; 16]));
    assert_eq!(failure, Some(BackupError::Corrupt));
    assert!(restored.is_empty());
}

#[test]
fn an_unknown_direction_makes_the_backup_corrupt() {
    let mut store = TriggerStore::new();
    store.add(1, lower(5.0));
    store.add(2, higher(6.0));
    let mut bytes = backup(&store).expect("bytes");
    let at = bytes.len() - 12;
    bytes[at] = 2;
    let (restored, failure) = restore(Some(&bytes));
    assert_eq!(failure, Some(BackupError::Corrupt));
    assert!(restored.is_empty());
}

#[test]
fn a_threshold_that_is_no_number_makes_the_backup_corrupt() {
    let mut store = TriggerStore::new();
    store.add(1, lower(5.0));
    let mut bytes = backup(&store).expect("bytes");
    let at = bytes.len() - 8;
    bytes[at..].copy_from_slice(&f64::NAN.to_bits().to_le_bytes());
    let (restored, failure) = restore(Some(&bytes));
    assert_eq!(failure, Some(BackupError::Corrupt));
    assert!(restored.is_empty());
}

#[test]
fn a_backup_written_as_a_map_is_read() {
    let mut map: HashMap<i64, Vec<(u32, f64)>> = HashMap::new();
    map.insert(11, vec![(0, 4.5), (1, 9.0)]);
    map.insert(-3, vec![(1, 0.5)]);
    let bytes = bincode::serialize(&map).expect("bytes");
    let (restored, failure) = restore(Some(&bytes));
    assert_eq!(failure, None);
    assert_eq!(
        sorted_snapshot(&restored),
        vec![(-3, vec![higher(0.5)]), (11, vec![lower(4.5), higher(9.0)])]
    );
}

#[test]
fn a_backup_is_read_back_as_a_map() {
    let mut store = TriggerStore::new();
    store.add(11, higher(9.0));
    store.add(11, lower(4.5));
    store.add(-3, higher(0.5));
    let bytes = backup(&store).expect("bytes");
    let map: HashMap<i64, Vec<(u32, f64)>> = bincode::deserialize(&bytes).expect("a map");
    let mut expected: HashMap<i64, Vec<(u32, f64)>> = HashMap::new();
    expected.insert(11, vec![(0, 4.5), (1, 9.0)]);
    expected.insert(-3, vec![(1, 0.5)]);
    assert_eq!(map, expected);
}

#[test]
fn conditions_out_of_order_or_repeated_are_put_right() {
    let plain: Vec<(i64, Vec<(u32, u64)>)> = vec![
        (1, vec![(1, 9.0f64.to_bits()), (0, 4.5f64.to_bits()), (1, 9.0f64.to_bits())]),
        (2, vec![]),
        (1, vec![(0, 1.0f64.to_bits())]),
    ];
    let gathered = store_of(&plain).expect("a store");
    assert_eq!(
        sorted_snapshot(&gathered),
        vec![(1, vec![lower(1.0), lower(4.5), higher(9.0)])]
    );
    let bytes = bincode::serialize(&plain).expect("bytes");
    let (restored, failure) = restore(Some(&bytes));
    assert_eq!(failure, None);
    assert_eq!(sorted_snapshot(&restored), sorted_snapshot(&gathered));
}

#[test]
fn the_listing_of_a_store() {
    let mut store = TriggerStore::new();
    assert_eq!(plain_of(&store), vec![]);
    store.add(7, higher(5.0));
    store.add(7, lower(5.0));
    store.add(7, lower(-2.5));
    assert_eq!(
        plain_of(&store),
        vec![(
            7,
            vec![
                (0, 0xc004_0000_0000_0000),
                (0, 0x4014_0000_0000_0000),
                (1, 0x4014_0000_0000_0000)
            ]
        )]
    );
    store.add(8, higher(1.0));
    let mut plain = plain_of(&store);
    plain.sort();
    assert_eq!(plain.len(), 2);
    assert_eq!(plain[1], (8, vec![(1, 0x3ff0_0000_0000_0000)]));
}

#[test]
fn a_listing_gathers_to_its_store() {
    let mut store = TriggerStore::new();
    store.add(1, lower(5.0));
    store.add(1, higher(0.0));
    store.add(2, higher(7.25));
    let gathered = store_of(&plain_of(&store)).expect("a store");
    assert_eq!(sorted_snapshot(&gathered), sorted_snapshot(&store));
}

#[test]
fn a_pair_that_stands_for_no_condition_gathers_to_nothing() {
    let five = 5.0f64.to_bits();
    assert!(store_of(&vec![(1, vec![(0, five)])]).is_some());
    assert!(store_of(&vec![(1, vec![(0, five), (2, five)])]).is_none());
    assert!(store_of(&vec![(1, vec![(0, five)]), (2, vec![(u32::MAX, five)])]).is_none());
    assert!(store_of(&vec![(1, vec![(1, f64::NAN.to_bits())])]).is_none());
    assert!(store_of(&vec![(1, vec![(1, 0x7ff0_0000_0000_0001)])]).is_none());
    assert!(store_of(&vec![(1, vec![(1, f64::INFINITY.to_bits())])]).is_some());
}

#[test]
fn a_zero_with_its_sign_bit_set_is_zero() {
    let plain = vec![(1, vec![(0, (-0.0f64).to_bits()), (0, 0.0f64.to_bits())])];
    let gathered = store_of(&plain).expect("a store");
    assert_eq!(gathered.list(1), vec![lower(0.0)]);
}

#[test]
fn subscribers_without_conditions_are_left_out() {
    let gathered = store_of(&vec![(1, vec![]), (2, vec![])]).expect("a store");
    assert!(gathered.is_empty());
}

#[test]
fn every_store_has_a_backup() {
    let mut store = TriggerStore::new();
    assert!(backup(&store).is_ok());
    for subscriber in -50..50 {
        for n in 0..20 {
            store.add(subscriber, lower(n as f64 * 0.5));
            store.add(subscriber, higher(n as f64 * 0.5));
        }
        store.add(subscriber, lower(f64::INFINITY));
        store.add(subscriber, higher(f64::NEG_INFINITY));
    }
    let bytes = backup(&store).expect("bytes");
    assert_eq!(bytes.len(), 8 + 100 * (8 + 8 + 42 * 12));
    let (restored, failure) = restore(Some(&bytes));
    assert_eq!(failure, None);
    assert_eq!(sorted_snapshot(&restored), sorted_snapshot(&store));
}
