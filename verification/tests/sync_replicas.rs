//! Synchronisation between replicas: convergence, diff correctness and
//! deterministic tie-breaking.

use crdt_core::doc::{merge_updates, Doc};

fn text_of(doc: &Doc, name: &str) -> String {
    let mut txn = doc.create_transaction().unwrap();
    let text = txn.get_or_insert_text(name).unwrap();
    text.get_string(&txn)
}

fn state_of(doc: &Doc) -> Vec<u8> {
    let txn = doc.create_transaction().unwrap();
    doc.get_state(&txn)
}

fn update_for(doc: &Doc, state: &[u8]) -> Vec<u8> {
    let txn = doc.create_transaction().unwrap();
    doc.get_update(&txn, state).unwrap()
}

fn apply(doc: &Doc, update: &[u8]) {
    let mut txn = doc.create_transaction().unwrap();
    doc.apply_update(&mut txn, update).unwrap();
}

#[test]
fn concurrent_edits_converge_in_any_order_with_duplicates() {
    let a = Doc::new(Some(1), false);
    let b = Doc::new(Some(2), false);
    {
        let mut txn = a.create_transaction().unwrap();
        let text = txn.get_or_insert_text("text").unwrap();
        text.insert(&mut txn, 0, "abc").unwrap();
    }
    {
        let mut txn = b.create_transaction().unwrap();
        let text = txn.get_or_insert_text("text").unwrap();
        text.insert(&mut txn, 0, "xyz").unwrap();
    }
    let empty_state = vec![0u8];
    let update_a = update_for(&a, &empty_state);
    let update_b = update_for(&b, &empty_state);
    // apply in opposite orders, with duplication
    apply(&a, &update_b);
    apply(&a, &update_a);
    apply(&a, &update_b);
    apply(&b, &update_a);
    apply(&b, &update_b);
    apply(&b, &update_a);
    let sa = text_of(&a, "text");
    let sb = text_of(&b, "text");
    assert_eq!(sa, sb);
    assert_eq!(sa.len(), 6);
    assert_eq!(state_of(&a), state_of(&b));
}

#[test]
fn diff_reaches_full_peer_state() {
    let peer = Doc::new(Some(10), false);
    {
        let mut txn = peer.create_transaction().unwrap();
        let text = txn.get_or_insert_text("text").unwrap();
        text.insert(&mut txn, 0, "shared history").unwrap();
    }
    let replica = Doc::new(Some(11), false);
    // sync once
    let diff = update_for(&peer, &state_of(&replica));
    apply(&replica, &diff);
    assert_eq!(text_of(&replica, "text"), "shared history");
    // peer edits further; replica holds exactly its own state vector
    {
        let mut txn = peer.create_transaction().unwrap();
        let text = txn.get_or_insert_text("text").unwrap();
        text.insert(&mut txn, 0, "more ").unwrap();
    }
    let incremental = update_for(&peer, &state_of(&replica));
    apply(&replica, &incremental);
    assert_eq!(text_of(&replica, "text"), text_of(&peer, "text"));
    assert_eq!(state_of(&replica), state_of(&peer));
}

#[test]
fn concurrent_prepends_tie_break_identically() {
    let a = Doc::new(Some(1), false);
    let b = Doc::new(Some(2), false);
    // both replicas start from the same empty state
    {
        let mut txn = a.create_transaction().unwrap();
        let text = txn.get_or_insert_text("text").unwrap();
        text.insert(&mut txn, 0, "ab").unwrap();
    }
    {
        let mut txn = b.create_transaction().unwrap();
        let text = txn.get_or_insert_text("text").unwrap();
        text.insert(&mut txn, 0, "xy").unwrap();
    }
    let empty_state = vec![0u8];
    let ua = update_for(&a, &empty_state);
    let ub = update_for(&b, &empty_state);
    apply(&a, &ub);
    apply(&b, &ua);
    let sa = text_of(&a, "text");
    let sb = text_of(&b, "text");
    assert_eq!(sa.len(), 4);
    assert_eq!(sa, sb);
    // the two two-character runs stay contiguous
    assert!(sa == "abxy" || sa == "xyab");
}

#[test]
fn merged_updates_apply_like_the_parts() {
    let a = Doc::new(Some(1), false);
    {
        let mut txn = a.create_transaction().unwrap();
        let text = txn.get_or_insert_text("text").unwrap();
        text.insert(&mut txn, 0, "one").unwrap();
    }
    let first = update_for(&a, &[0u8]);
    {
        let mut txn = a.create_transaction().unwrap();
        let text = txn.get_or_insert_text("text").unwrap();
        text.insert(&mut txn, 3, " two").unwrap();
    }
    let both = update_for(&a, &[0u8]);
    let merged = merge_updates(&vec![first, both]).unwrap();
    let fresh = Doc::new(Some(2), false);
    apply(&fresh, &merged);
    assert_eq!(text_of(&fresh, "text"), "one two");
}

#[test]
fn merge_updates_rejects_malformed_input() {
    let r = merge_updates(&vec![vec![0xFF, 0xFF, 0xFF]]);
    assert!(r.is_err());
}
