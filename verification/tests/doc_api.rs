//! The document surface: identity, the transaction gate, root typing and
//! update validation.

use crdt_core::delete_set::DeleteSet;
use crdt_core::doc::{commit_changed, Doc, RootKind};
use crdt_core::errors::Error;
use crdt_core::state_vector::StateVector;

#[test]
fn doc_keeps_chosen_client_id() {
    let doc = Doc::new(Some(42), true);
    assert_eq!(doc.client_id(), 42);
    assert!(doc.skip_gc());
    assert!(!doc.guid().is_empty());
}

#[test]
fn docs_without_client_id_get_one() {
    let doc = Doc::new(None, false);
    assert!(doc.client_id() < (1u64 << 53));
}

#[test]
fn second_transaction_is_refused() {
    let doc = Doc::new(Some(1), false);
    let txn = doc.create_transaction().unwrap();
    let second = doc.create_transaction();
    assert!(matches!(second, Err(Error::Concurrency)));
    drop(txn);
    assert!(doc.create_transaction().is_ok());
}

#[test]
fn transaction_with_origin_is_exclusive_too() {
    let doc = Doc::new(Some(1), false);
    let txn = doc.create_transaction_with_origin(7).unwrap();
    assert!(matches!(
        doc.create_transaction_with_origin(8),
        Err(Error::Concurrency)
    ));
    drop(txn);
}

#[test]
fn root_name_bound_to_other_kind_is_a_mismatch() {
    let doc = Doc::new(Some(1), false);
    let mut txn = doc.create_transaction().unwrap();
    let _text = txn.get_or_insert_text("shared").unwrap();
    let again = txn.get_or_insert_text("shared");
    assert!(again.is_ok());
    let as_array = txn.get_or_insert_array("shared");
    assert!(matches!(as_array, Err(Error::TypeMismatch)));
    let as_map = txn.get_or_insert_map("shared");
    assert!(matches!(as_map, Err(Error::TypeMismatch)));
}

#[test]
fn roots_lists_created_roots_with_kinds() {
    let doc = Doc::new(Some(1), false);
    let mut txn = doc.create_transaction().unwrap();
    let _t = txn.get_or_insert_text("a_text").unwrap();
    let _a = txn.get_or_insert_array("an_array").unwrap();
    let _m = txn.get_or_insert_map("a_map").unwrap();
    let _x = txn.get_or_insert_xml_fragment("an_xml").unwrap();
    let roots = doc.roots(&txn);
    let find = |name: &str| {
        roots
            .iter()
            .find(|(n, _)| n == name)
            .map(|(_, k)| *k)
            .unwrap()
    };
    assert_eq!(find("a_text"), RootKind::Text);
    assert_eq!(find("an_array"), RootKind::Array);
    assert_eq!(find("a_map"), RootKind::MapRoot);
    assert_eq!(find("an_xml"), RootKind::XmlFragment);
}

#[test]
fn apply_update_rejects_malformed_bytes_without_change() {
    let doc = Doc::new(Some(1), false);
    {
        let mut txn = doc.create_transaction().unwrap();
        let text = txn.get_or_insert_text("text").unwrap();
        text.insert(&mut txn, 0, "keep").unwrap();
    }
    let mut txn = doc.create_transaction().unwrap();
    let r = doc.apply_update(&mut txn, &[0xFF, 0x00, 0x13, 0x37]);
    assert!(matches!(r, Err(Error::Decode { .. })));
    let text = txn.get_or_insert_text("text").unwrap();
    assert_eq!(text.get_string(&txn), "keep");
}

#[test]
fn get_update_rejects_malformed_state_vector() {
    let doc = Doc::new(Some(1), false);
    let txn = doc.create_transaction().unwrap();
    let r = doc.get_update(&txn, &[9, 9]);
    assert!(matches!(r, Err(Error::Decode { .. })));
}

#[test]
fn get_state_of_fresh_doc_is_empty_vector() {
    let doc = Doc::new(Some(1), false);
    let txn = doc.create_transaction().unwrap();
    assert_eq!(doc.get_state(&txn), vec![0]);
}

#[test]
fn text_insert_out_of_bounds_is_rejected() {
    let doc = Doc::new(Some(1), false);
    let mut txn = doc.create_transaction().unwrap();
    let text = txn.get_or_insert_text("text").unwrap();
    text.insert(&mut txn, 0, "hi").unwrap();
    let r = text.insert(&mut txn, 5, "!");
    assert!(matches!(r, Err(Error::OutOfBounds)));
    let r = text.remove_range(&mut txn, 1, 5);
    assert!(matches!(r, Err(Error::OutOfBounds)));
    assert_eq!(text.get_string(&txn), "hi");
}

#[test]
fn text_edit_roundtrip() {
    let doc = Doc::new(Some(1), false);
    let mut txn = doc.create_transaction().unwrap();
    let text = txn.get_or_insert_text("text").unwrap();
    text.insert(&mut txn, 0, "hello").unwrap();
    text.push(&mut txn, " world").unwrap();
    assert_eq!(text.len(&txn), 11);
    text.remove_range(&mut txn, 5, 6).unwrap();
    assert_eq!(text.get_string(&txn), "hello");
}

#[test]
fn with_options_keeps_guid_and_collection() {
    let doc = Doc::with_options(
        Some(5),
        true,
        Some("stable-guid".to_string()),
        Some("workspace-a".to_string()),
    );
    assert_eq!(doc.client_id(), 5);
    assert!(doc.skip_gc());
    assert_eq!(doc.guid(), "stable-guid");
    assert_eq!(doc.collection_id(), Some("workspace-a".to_string()));
    let plain = Doc::new(Some(6), false);
    assert_eq!(plain.collection_id(), None);
}

#[test]
fn commit_changed_fires_on_deletions_or_state_movement() {
    let mut before = StateVector::new();
    before.set_max(1, 2);
    let mut same = StateVector::new();
    same.set_max(1, 2);
    let mut after = StateVector::new();
    after.set_max(1, 3);
    let empty = DeleteSet::new();
    let mut dels = DeleteSet::new();
    dels.insert(1, 0, 1);
    assert!(!commit_changed(&before, &same, &empty));
    assert!(commit_changed(&before, &after, &empty));
    assert!(commit_changed(&before, &same, &dels));
}
