use cacher_memtable::hashing::scramble;
use cacher_memtable::hashing::{next_offset, slot_offset};
use cacher_memtable::open_index_table::in_cyclic_interval;
use cacher_memtable::open_index_table::OpenIndexTable;
use std::collections::HashMap;

#[test]
fn test_table_insert() {
    let mut table = OpenIndexTable::new();
    table.insert(1, 2);
    table.insert(2, 3);
    table.insert(3, 4);
    table.insert(4, 5);
    assert_eq!(table.get(1), (2, true));
    assert_eq!(table.get(2), (3, true));
    assert_eq!(table.get(3), (4, true));
    assert_eq!(table.get(4), (5, true));
}

#[test]
fn test_table_delete() {
    let mut table = OpenIndexTable::new();
    table.insert(1, 2);
    table.insert(2, 3);
    table.insert(3, 4);
    table.insert(4, 5);
    assert_eq!(table.get(1), (2, true));
    assert_eq!(table.get(2), (3, true));
    assert_eq!(table.get(3), (4, true));
    assert_eq!(table.get(4), (5, true));
    assert_eq!(table.delete(1), (2, true));
    assert_eq!(table.delete(2), (3, true));
    assert_eq!(table.delete(3), (4, true));
    assert_eq!(table.delete(4), (5, true));
    assert_eq!(table.get(1), (0, false));
    assert_eq!(table.get(2), (0, false));
    assert_eq!(table.get(3), (0, false));
    assert_eq!(table.get(4), (0, false));
}

#[test]
fn new_table_is_empty() {
    let table = OpenIndexTable::new();
    assert_eq!(table.slot_capacity(), 64);
    assert_eq!(table.occupied_count(), 0);
    for k in [0u64, 1, 2, 63, 64, 12345, u64::MAX] {
        assert_eq!(table.get(k), (0, false));
    }
}

#[test]
fn insert_then_get_round_trip() {
    let mut table = OpenIndexTable::new();
    for (k, v) in [(7u64, 70u64), (u64::MAX, 1), (1 << 40, 0), (0, 5), (9, u64::MAX)] {
        table.insert(k, v);
        assert_eq!(table.get(k), (v, true));
    }
    assert_eq!(table.occupied_count(), 4);
}

#[test]
fn delete_of_absent_key_reports_nothing() {
    let mut table = OpenIndexTable::new();
    table.insert(5, 6);
    assert_eq!(table.delete(6), (0, false));
    assert_eq!(table.occupied_count(), 1);
    assert_eq!(table.get(5), (6, true));
}

#[test]
fn delete_then_absent() {
    let mut table = OpenIndexTable::new();
    table.insert(11, 22);
    assert_eq!(table.delete(11), (22, true));
    assert_eq!(table.get(11), (0, false));
    assert_eq!(table.delete(11), (0, false));
    assert_eq!(table.occupied_count(), 0);
}

#[test]
fn overwrite_keeps_count() {
    let mut table = OpenIndexTable::new();
    table.insert(3, 10);
    let count = table.occupied_count();
    table.insert(3, 20);
    assert_eq!(table.get(3), (20, true));
    assert_eq!(table.occupied_count(), count);
    assert_eq!(count, 1);
}

#[test]
fn reserved_key_path() {
    let mut table = OpenIndexTable::new();
    table.insert(0, 42);
    assert_eq!(table.get(0), (42, true));
    assert_eq!(table.occupied_count(), 0);
    assert_eq!(table.delete(0), (42, true));
    assert_eq!(table.get(0), (42, false));
}

#[test]
fn reserved_key_delete_is_always_found() {
    let mut table = OpenIndexTable::new();
    assert_eq!(table.delete(0), (0, true));
    assert_eq!(table.get(0), (0, false));
    table.insert(0, 8);
    assert_eq!(table.delete(0), (8, true));
    assert_eq!(table.delete(0), (8, true));
}

#[test]
fn scramble_exact_values() {
    assert_eq!(scramble(0), 0);
    assert_eq!(scramble(1), 107512611951807);
    assert_eq!(scramble(2), 430050447807228);
    assert_eq!(scramble(3), 967621470873570);
    assert_eq!(scramble(u64::MAX), 9675809839695187576);
    assert_eq!(scramble(1 << 40), 0);
}

#[test]
fn offsets_exact_values() {
    assert_eq!(slot_offset(1, 63), 126);
    assert_eq!(slot_offset(2, 63), 120);
    assert_eq!(slot_offset(3, 63), 68);
    assert_eq!(slot_offset(3, 127), 2 * (967621470873570u64 & 127));
    assert_eq!(next_offset(0, 128), 2);
    assert_eq!(next_offset(124, 128), 126);
    assert_eq!(next_offset(126, 128), 0);
}

#[test]
fn cyclic_interval_cases() {
    // the walk from 2 reaches 8 after passing 4
    assert!(in_cyclic_interval(2, 4, 8));
    assert!(in_cyclic_interval(4, 4, 8));
    assert!(!in_cyclic_interval(6, 4, 8));
    assert!(!in_cyclic_interval(8, 4, 8));
    // the walk from 10 wraps round to 8 and passes 4 on the way
    assert!(in_cyclic_interval(10, 4, 8));
    // hole at 126, scan wrapped to 2
    assert!(in_cyclic_interval(120, 126, 2));
    assert!(in_cyclic_interval(126, 126, 2));
    assert!(!in_cyclic_interval(0, 126, 2));
    assert!(!in_cyclic_interval(2, 126, 2));
    assert!(in_cyclic_interval(4, 126, 2));
}

fn keys_with_home(home: u64, how_many: usize) -> Vec<u64> {
    let mut keys = Vec::new();
    let mut k: u64 = 1;
    while keys.len() < how_many {
        if scramble(k) & 63 == home {
            keys.push(k);
        }
        k += 1;
    }
    keys
}

#[test]
fn colliding_keys_survive_deletion() {
    // chains that start at the last slots and wrap round the end of storage
    let mut keys = keys_with_home(62, 10);
    keys.extend(keys_with_home(63, 10));
    keys.extend(keys_with_home(0, 10));
    assert_eq!(&keys[..3], &[71, 147, 286]);
    let mut table = OpenIndexTable::new();
    for (i, k) in keys.iter().enumerate() {
        table.insert(*k, i as u64 + 100);
    }
    assert_eq!(table.occupied_count(), 30);
    assert_eq!(table.slot_capacity(), 64);
    for (i, k) in keys.iter().enumerate() {
        if i % 3 == 0 {
            assert_eq!(table.delete(*k), (i as u64 + 100, true));
        }
    }
    assert_eq!(table.occupied_count(), 20);
    for (i, k) in keys.iter().enumerate() {
        if i % 3 == 0 {
            assert_eq!(table.get(*k), (0, false));
        } else {
            assert_eq!(table.get(*k), (i as u64 + 100, true));
        }
    }
}

#[test]
fn every_deletion_order_keeps_the_rest() {
    let keys = keys_with_home(63, 6);
    for first in 0..keys.len() {
        for second in 0..keys.len() {
            if first == second {
                continue;
            }
            let mut table = OpenIndexTable::new();
            for k in keys.iter() {
                table.insert(*k, *k + 1);
            }
            assert_eq!(table.delete(keys[first]), (keys[first] + 1, true));
            assert_eq!(table.delete(keys[second]), (keys[second] + 1, true));
            for (i, k) in keys.iter().enumerate() {
                if i == first || i == second {
                    assert_eq!(table.get(*k), (0, false));
                } else {
                    assert_eq!(table.get(*k), (*k + 1, true));
                }
            }
            assert_eq!(table.occupied_count(), 4);
        }
    }
}

#[test]
fn growth_keeps_every_key() {
    let mut table = OpenIndexTable::new();
    for k in 1..=56u64 {
        table.insert(k, k * 2);
    }
    assert_eq!(table.slot_capacity(), 64);
    assert_eq!(table.occupied_count(), 56);
    table.insert(57, 114);
    assert_eq!(table.slot_capacity(), 128);
    assert_eq!(table.occupied_count(), 57);
    for k in 1..=57u64 {
        assert_eq!(table.get(k), (k * 2, true));
    }
    assert_eq!(table.get(58), (0, false));
}

#[test]
fn growth_keeps_the_reserved_key() {
    let mut table = OpenIndexTable::new();
    table.insert(0, 77);
    for k in 1..=500u64 {
        table.insert(k, k);
    }
    assert_eq!(table.get(0), (77, true));
    assert_eq!(table.occupied_count(), 500);
    assert_eq!(table.slot_capacity(), 1024);
    let mut other = OpenIndexTable::new();
    for k in 1..=500u64 {
        other.insert(k, k);
    }
    assert_eq!(other.get(0), (0, false));
}

#[test]
fn deletion_never_shrinks() {
    let mut table = OpenIndexTable::new();
    for k in 1..=57u64 {
        table.insert(k, k);
    }
    for k in 1..=57u64 {
        assert_eq!(table.delete(k), (k, true));
    }
    assert_eq!(table.slot_capacity(), 128);
    assert_eq!(table.occupied_count(), 0);
}

#[test]
fn agrees_with_a_reference_map() {
    let mut table = OpenIndexTable::new();
    let mut reference: HashMap<u64, u64> = HashMap::new();
    let mut state: u64 = 0x2545F4914F6CDD1D;
    for step in 0..20000u64 {
        state ^= state << 13;
        state ^= state >> 7;
        state ^= state << 17;
        let key = 1 + (state >> 20) % 700;
        match state % 3 {
            0 => {
                table.insert(key, step);
                reference.insert(key, step);
            }
            1 => {
                let expected = match reference.remove(&key) {
                    Some(v) => (v, true),
                    None => (0, false),
                };
                assert_eq!(table.delete(key), expected);
            }
            _ => {
                let expected = match reference.get(&key) {
                    Some(v) => (*v, true),
                    None => (0, false),
                };
                assert_eq!(table.get(key), expected);
            }
        }
        assert_eq!(table.occupied_count(), reference.len() as u64);
    }
    for key in 1..=700u64 {
        let expected = match reference.get(&key) {
            Some(v) => (*v, true),
            None => (0, false),
        };
        assert_eq!(table.get(key), expected);
    }
}
