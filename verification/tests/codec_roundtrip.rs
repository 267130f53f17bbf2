//! Round trips and exact byte/JSON forms of the synchronisation values.

use crdt_core::delete_set::DeleteSet;
use crdt_core::errors::Error;
use crdt_core::snapshot::Snapshot;
use crdt_core::state_vector::StateVector;
use crdt_core::undo::StackItem;

#[test]
fn state_vector_encodes_exact_bytes() {
    let mut sv = StateVector::new();
    sv.set_max(1, 3);
    assert_eq!(sv.encode(), vec![1, 1, 3]);
}

#[test]
fn state_vector_multibyte_client_encoding() {
    let mut sv = StateVector::new();
    sv.set_max(300, 5);
    // 300 = 0xAC 0x02 in the variable-length encoding
    assert_eq!(sv.encode(), vec![1, 0xAC, 0x02, 5]);
}

#[test]
fn state_vector_roundtrip() {
    let mut sv = StateVector::new();
    sv.set_max(7, 42);
    sv.set_max(1, 9);
    sv.set_max(123456789, 1);
    let bytes = sv.encode();
    let back = StateVector::decode(&bytes).unwrap();
    assert_eq!(back.get(1), 9);
    assert_eq!(back.get(7), 42);
    assert_eq!(back.get(123456789), 1);
    assert_eq!(back.get(2), 0);
    assert_eq!(back.encode(), bytes);
}

#[test]
fn state_vector_set_max_keeps_largest() {
    let mut sv = StateVector::new();
    sv.set_max(5, 10);
    sv.set_max(5, 4);
    assert_eq!(sv.get(5), 10);
    sv.set_max(5, 11);
    assert_eq!(sv.get(5), 11);
}

#[test]
fn state_vector_zero_clock_not_recorded() {
    let mut sv = StateVector::new();
    sv.set_max(5, 0);
    assert!(sv.is_empty());
    assert_eq!(sv.encode(), vec![0]);
}

#[test]
fn state_vector_decode_rejects_truncated() {
    // announces one entry but ends early
    let r = StateVector::decode(&[1, 1]);
    assert!(matches!(r, Err(Error::Decode { .. })));
}

#[test]
fn state_vector_decode_rejects_trailing_bytes() {
    let r = StateVector::decode(&[1, 1, 3, 0]);
    assert!(matches!(r, Err(Error::Decode { offset: 3 })));
}

#[test]
fn state_vector_decode_rejects_unsorted_clients() {
    // clients 2 then 1: not canonical
    let r = StateVector::decode(&[2, 2, 1, 1, 1]);
    assert!(matches!(r, Err(Error::Decode { .. })));
}

#[test]
fn state_vector_decode_rejects_zero_clock() {
    let r = StateVector::decode(&[1, 1, 0]);
    assert!(matches!(r, Err(Error::Decode { .. })));
}

#[test]
fn state_vector_decode_rejects_empty_input() {
    let r = StateVector::decode(&[]);
    assert!(matches!(r, Err(Error::Decode { offset: 0 })));
}

#[test]
fn delete_set_insert_coalesces_adjacent_ranges() {
    let mut ds = DeleteSet::new();
    ds.insert(1, 0, 5);
    ds.insert(1, 5, 3);
    assert_eq!(ds.client_count(), 1);
    assert_eq!(ds.range_count(0), 1);
    assert_eq!(ds.range_at(0, 0), (0, 8));
}

#[test]
fn delete_set_insert_keeps_disjoint_ranges() {
    let mut ds = DeleteSet::new();
    ds.insert(1, 10, 2);
    ds.insert(1, 0, 2);
    assert_eq!(ds.range_count(0), 2);
    assert_eq!(ds.range_at(0, 0), (0, 2));
    assert_eq!(ds.range_at(0, 1), (10, 12));
    assert!(ds.contains(1, 0));
    assert!(ds.contains(1, 11));
    assert!(!ds.contains(1, 5));
    assert!(!ds.contains(2, 0));
}

#[test]
fn delete_set_insert_merges_overlap() {
    let mut ds = DeleteSet::new();
    ds.insert(9, 0, 4);
    ds.insert(9, 8, 4);
    ds.insert(9, 2, 8);
    assert_eq!(ds.range_count(0), 1);
    assert_eq!(ds.range_at(0, 0), (0, 12));
}

#[test]
fn delete_set_encodes_exact_bytes() {
    let mut ds = DeleteSet::new();
    ds.insert(1, 0, 5);
    // one client, client 1, one range, start 0, length 5
    assert_eq!(ds.encode(), vec![1, 1, 1, 0, 5]);
}

#[test]
fn delete_set_roundtrip() {
    let mut ds = DeleteSet::new();
    ds.insert(3, 7, 2);
    ds.insert(1, 0, 1);
    ds.insert(3, 100, 50);
    let bytes = ds.encode();
    let back = DeleteSet::decode(&bytes).unwrap();
    assert_eq!(back.client_count(), 2);
    assert!(back.contains(3, 8));
    assert!(back.contains(3, 149));
    assert!(back.contains(1, 0));
    assert!(!back.contains(3, 9));
    assert_eq!(back.encode(), bytes);
}

#[test]
fn delete_set_decode_rejects_overlapping_ranges() {
    // client 1, two ranges 0..5 and 3..6: not canonical
    let r = DeleteSet::decode(&[1, 1, 2, 0, 5, 3, 3]);
    assert!(matches!(r, Err(Error::Decode { .. })));
}

#[test]
fn delete_set_decode_rejects_empty_range_list() {
    let r = DeleteSet::decode(&[1, 1, 0]);
    assert!(matches!(r, Err(Error::Decode { .. })));
}

#[test]
fn delete_set_merge_is_union() {
    let mut a = DeleteSet::new();
    a.insert(1, 0, 5);
    a.insert(2, 10, 5);
    let mut b = DeleteSet::new();
    b.insert(1, 5, 5);
    b.insert(3, 0, 1);
    a.merge_with(&b);
    assert!(a.contains(1, 0));
    assert!(a.contains(1, 9));
    assert!(a.contains(2, 14));
    assert!(a.contains(3, 0));
    assert!(!a.contains(1, 10));
    // 0..5 and 5..10 coalesce
    assert_eq!(a.range_at(0, 0), (0, 10));
}

#[test]
fn delete_set_json_form() {
    let mut ds = DeleteSet::new();
    ds.insert(1, 0, 5);
    ds.insert(300, 7, 2);
    assert_eq!(ds.to_json_string(), "{\"1\":[[0,5]],\"300\":[[7,9]]}");
}

#[test]
fn delete_set_json_empty() {
    assert_eq!(DeleteSet::new().to_json_string(), "{}");
}

#[test]
fn snapshot_roundtrip() {
    let mut sv = StateVector::new();
    sv.set_max(1, 4);
    let mut ds = DeleteSet::new();
    ds.insert(1, 2, 2);
    let snap = Snapshot::from_parts(sv, ds);
    let bytes = snap.encode();
    // state vector bytes then delete set bytes
    assert_eq!(bytes, vec![1, 1, 4, 1, 1, 1, 2, 2]);
    let back = Snapshot::decode(&bytes).unwrap();
    assert_eq!(back.state_vector().get(1), 4);
    assert!(back.delete_set().contains(1, 3));
    assert_eq!(back.encode(), bytes);
}

#[test]
fn snapshot_decode_rejects_truncated() {
    let r = Snapshot::decode(&[1, 1, 4]);
    assert!(matches!(r, Err(Error::Decode { .. })));
}

#[test]
fn stack_item_encode_decode() {
    let mut dels = DeleteSet::new();
    dels.insert(1, 0, 2);
    let mut inss = DeleteSet::new();
    inss.insert(2, 5, 1);
    let item = StackItem::from_parts(dels, inss);
    let (d_bytes, i_bytes) = item.encode();
    assert_eq!(d_bytes, vec![1, 1, 1, 0, 2]);
    assert_eq!(i_bytes, vec![1, 2, 1, 5, 1]);
    let back = StackItem::decode(&d_bytes, &i_bytes).unwrap();
    assert!(back.deletions().contains(1, 1));
    assert!(back.insertions().contains(2, 5));
    let (d2, i2) = back.encode();
    assert_eq!(d2, d_bytes);
    assert_eq!(i2, i_bytes);
}

#[test]
fn stack_item_decode_rejects_bad_half() {
    let good = vec![1, 1, 1, 0, 2];
    let bad = vec![1, 1];
    assert!(matches!(
        StackItem::decode(&bad, &good),
        Err(Error::Decode { .. })
    ));
    assert!(matches!(
        StackItem::decode(&good, &bad),
        Err(Error::Decode { .. })
    ));
}

#[test]
fn stack_item_json_form() {
    let mut dels = DeleteSet::new();
    dels.insert(1, 0, 2);
    let item = StackItem::from_parts(dels, DeleteSet::new());
    assert_eq!(
        item.to_json_string(),
        "{\"deletions\":{\"1\":[[0,2]]},\"insertions\":{}}"
    );
}

#[test]
fn stack_item_merge_unions_both_halves() {
    let mut d1 = DeleteSet::new();
    d1.insert(1, 0, 2);
    let mut i1 = DeleteSet::new();
    i1.insert(1, 10, 1);
    let a = StackItem::from_parts(d1, i1);
    let mut d2 = DeleteSet::new();
    d2.insert(2, 4, 1);
    let mut i2 = DeleteSet::new();
    i2.insert(1, 11, 1);
    let b = StackItem::from_parts(d2, i2);
    let m = StackItem::merge(&a, &b);
    assert!(m.deletions().contains(1, 1));
    assert!(m.deletions().contains(2, 4));
    assert!(!m.deletions().contains(1, 10));
    assert!(m.insertions().contains(1, 10));
    assert!(m.insertions().contains(1, 11));
    // adjacent insertions coalesce
    assert_eq!(m.insertions().range_at(0, 0), (10, 12));
}

#[test]
fn error_descriptions_are_nonempty() {
    let errors = vec![
        Error::Concurrency,
        Error::Decode { offset: 3 },
        Error::TypeMismatch,
        Error::AnchorUnresolvable,
        Error::MissingDependency,
        Error::OutOfBounds,
    ];
    for e in errors {
        assert!(!e.describe().is_empty());
    }
}

#[test]
fn from_entries_normalises_arbitrary_input() {
    // unordered clients, duplicate client, overlapping and empty ranges
    let raw = vec![
        (5u64, vec![(10u32, 12u32), (0, 0)]),
        (1, vec![(4, 6)]),
        (5, vec![(11, 15)]),
    ];
    let ds = crdt_core::delete_set::DeleteSet::from_entries(&raw);
    assert_eq!(ds.client_count(), 2);
    assert_eq!(ds.client_at(0), 1);
    assert_eq!(ds.client_at(1), 5);
    assert_eq!(ds.range_at(1, 0), (10, 15));
    assert!(!ds.contains(5, 0));
    assert!(ds.contains(1, 5));
}

#[test]
fn to_entries_mirrors_the_set() {
    let mut ds = DeleteSet::new();
    ds.insert(2, 1, 2);
    ds.insert(1, 0, 1);
    let entries = ds.to_entries();
    assert_eq!(entries, vec![(1, vec![(0, 1)]), (2, vec![(1, 3)])]);
}

#[test]
fn from_pairs_keeps_largest_clock_per_client() {
    let pairs = vec![(3u64, 5u32), (1, 2), (3, 9), (2, 0)];
    let sv = StateVector::from_pairs(&pairs);
    assert_eq!(sv.get(3), 9);
    assert_eq!(sv.get(1), 2);
    // zero clocks are dropped
    assert_eq!(sv.get(2), 0);
    assert_eq!(sv.client_count(), 2);
}
