//! Undo capture and coalescing, snapshot restoration, and sticky-index
//! stability under concurrent edits.

use crdt_core::assoc::Assoc;
use crdt_core::doc::Doc;
use crdt_core::errors::Error;
use crdt_core::sticky::{decode_sticky_index, get_sticky_index_from_json_string};
use crdt_core::undo::UndoManager;

#[test]
fn edits_within_timeout_coalesce_into_one_undo_step() {
    let doc = Doc::new(Some(1), false);
    let mut mgr = UndoManager::new(&doc, 60_000, vec![], vec![]).unwrap();
    let text_handle = {
        let mut txn = doc.create_transaction().unwrap();
        txn.get_or_insert_text("text").unwrap()
    };
    mgr.expand_scope_text(&text_handle).unwrap();
    {
        let mut txn = doc.create_transaction().unwrap();
        let text = txn.get_or_insert_text("text").unwrap();
        text.insert(&mut txn, 0, "a").unwrap();
    }
    {
        let mut txn = doc.create_transaction().unwrap();
        let text = txn.get_or_insert_text("text").unwrap();
        text.insert(&mut txn, 1, "b").unwrap();
    }
    // both edits fell inside the capture window: one stack item
    assert_eq!(mgr.undo_stack().len(), 1);
    assert!(mgr.can_undo());
    assert_eq!(mgr.undo().unwrap(), true);
    {
        let mut txn = doc.create_transaction().unwrap();
        let text = txn.get_or_insert_text("text").unwrap();
        assert_eq!(text.get_string(&txn), "");
    }
    assert!(mgr.can_redo());
    assert_eq!(mgr.redo().unwrap(), true);
    {
        let mut txn = doc.create_transaction().unwrap();
        let text = txn.get_or_insert_text("text").unwrap();
        assert_eq!(text.get_string(&txn), "ab");
    }
}

#[test]
fn zero_timeout_keeps_undo_steps_separate() {
    let doc = Doc::new(Some(1), false);
    let mut mgr = UndoManager::new(&doc, 0, vec![], vec![]).unwrap();
    let text_handle = {
        let mut txn = doc.create_transaction().unwrap();
        txn.get_or_insert_text("text").unwrap()
    };
    mgr.expand_scope_text(&text_handle).unwrap();
    {
        let mut txn = doc.create_transaction().unwrap();
        let text = txn.get_or_insert_text("text").unwrap();
        text.insert(&mut txn, 0, "a").unwrap();
    }
    {
        let mut txn = doc.create_transaction().unwrap();
        let text = txn.get_or_insert_text("text").unwrap();
        text.insert(&mut txn, 1, "b").unwrap();
    }
    assert_eq!(mgr.undo_stack().len(), 2);
    assert_eq!(mgr.undo().unwrap(), true);
    {
        let mut txn = doc.create_transaction().unwrap();
        let text = txn.get_or_insert_text("text").unwrap();
        assert_eq!(text.get_string(&txn), "a");
    }
    assert_eq!(mgr.undo().unwrap(), true);
    {
        let mut txn = doc.create_transaction().unwrap();
        let text = txn.get_or_insert_text("text").unwrap();
        assert_eq!(text.get_string(&txn), "");
    }
}

#[test]
fn undo_on_empty_stack_is_a_quiet_no_op() {
    let doc = Doc::new(Some(1), false);
    let mut mgr = UndoManager::new(&doc, 500, vec![], vec![]).unwrap();
    assert!(!mgr.can_undo());
    assert_eq!(mgr.undo().unwrap(), false);
    assert_eq!(mgr.redo().unwrap(), false);
}

#[test]
fn undo_while_transaction_open_is_a_concurrency_error() {
    let doc = Doc::new(Some(1), false);
    let mut mgr = UndoManager::new(&doc, 500, vec![], vec![]).unwrap();
    let txn = doc.create_transaction().unwrap();
    assert!(matches!(mgr.undo(), Err(Error::Concurrency)));
    assert!(matches!(mgr.redo(), Err(Error::Concurrency)));
    drop(txn);
}

#[test]
fn undo_manager_clear_empties_stacks() {
    let doc = Doc::new(Some(1), false);
    let mut mgr = UndoManager::new(&doc, 0, vec![], vec![]).unwrap();
    let text_handle = {
        let mut txn = doc.create_transaction().unwrap();
        txn.get_or_insert_text("text").unwrap()
    };
    mgr.expand_scope_text(&text_handle).unwrap();
    {
        let mut txn = doc.create_transaction().unwrap();
        let text = txn.get_or_insert_text("text").unwrap();
        text.insert(&mut txn, 0, "a").unwrap();
    }
    assert!(mgr.can_undo());
    mgr.clear().unwrap();
    assert!(!mgr.can_undo());
    assert!(!mgr.can_redo());
}

#[test]
fn undo_stack_items_carry_the_inserted_ranges() {
    let doc = Doc::new(Some(77), false);
    let mut mgr = UndoManager::new(&doc, 60_000, vec![], vec![]).unwrap();
    let text_handle = {
        let mut txn = doc.create_transaction().unwrap();
        txn.get_or_insert_text("text").unwrap()
    };
    mgr.expand_scope_text(&text_handle).unwrap();
    {
        let mut txn = doc.create_transaction().unwrap();
        let text = txn.get_or_insert_text("text").unwrap();
        text.insert(&mut txn, 0, "abc").unwrap();
    }
    let stack = mgr.undo_stack();
    assert_eq!(stack.len(), 1);
    let item = &stack[0];
    // three one-byte insertions by client 77 starting at clock 0
    assert!(item.insertions().contains(77, 0));
    assert!(item.insertions().contains(77, 2));
    assert!(!item.insertions().contains(77, 3));
    assert!(item.deletions().is_empty());
}

#[test]
fn snapshot_restores_content_and_root_schema() {
    // restoration needs the full history: suppress garbage collection
    let doc = Doc::new(Some(1), true);
    {
        let mut txn = doc.create_transaction().unwrap();
        let text = txn.get_or_insert_text("text").unwrap();
        text.insert(&mut txn, 0, "abc").unwrap();
    }
    let snap = {
        let txn = doc.create_transaction().unwrap();
        doc.snapshot(&txn)
    };
    {
        let mut txn = doc.create_transaction().unwrap();
        let text = txn.get_or_insert_text("text").unwrap();
        text.insert(&mut txn, 3, "def").unwrap();
        // a root created after the snapshot: empty under it, but part of
        // the schema that must survive restoration
        let _ = txn.get_or_insert_array("late_root").unwrap();
    }
    let restored = Doc::from_snapshot(&doc, &snap).unwrap();
    assert_eq!(restored.client_id(), doc.client_id());
    assert_eq!(restored.guid(), doc.guid());
    let mut txn = restored.create_transaction().unwrap();
    let text = txn.get_or_insert_text("text").unwrap();
    assert_eq!(text.get_string(&txn), "abc");
    let roots = restored.roots(&txn);
    assert!(roots.iter().any(|(n, _)| n == "late_root"));
}

#[test]
fn sticky_index_tracks_through_prepends() {
    let doc = Doc::new(Some(1), false);
    let mut txn = doc.create_transaction().unwrap();
    let text = txn.get_or_insert_text("text").unwrap();
    text.insert(&mut txn, 0, "hello").unwrap();
    let anchor = text.sticky_index(&mut txn, 2, Assoc::After).unwrap();
    assert_eq!(anchor.get_offset(&txn).unwrap(), 2);
    text.insert(&mut txn, 0, "XX").unwrap();
    // content shifted; the anchor follows the same logical character
    assert_eq!(anchor.get_offset(&txn).unwrap(), 4);
    assert_eq!(anchor.get_assoc(), 0);
}

#[test]
fn sticky_index_survives_deletion_of_its_anchor() {
    let doc = Doc::new(Some(1), false);
    let mut txn = doc.create_transaction().unwrap();
    let text = txn.get_or_insert_text("text").unwrap();
    text.insert(&mut txn, 0, "hello").unwrap();
    let anchor = text.sticky_index(&mut txn, 3, Assoc::After).unwrap();
    // delete the anchored character itself
    text.remove_range(&mut txn, 2, 1).unwrap();
    let offset = anchor.get_offset(&txn).unwrap();
    assert_eq!(offset, 2);
}

#[test]
fn sticky_index_binary_roundtrip() {
    let doc = Doc::new(Some(1), false);
    let mut txn = doc.create_transaction().unwrap();
    let text = txn.get_or_insert_text("text").unwrap();
    text.insert(&mut txn, 0, "hello").unwrap();
    let anchor = text.sticky_index(&mut txn, 2, Assoc::Before).unwrap();
    let bytes = anchor.encode();
    let back = decode_sticky_index(&bytes).unwrap();
    assert_eq!(
        back.get_offset(&txn).unwrap(),
        anchor.get_offset(&txn).unwrap()
    );
    assert_eq!(back.get_assoc(), -1);
    assert_eq!(back.encode(), bytes);
}

#[test]
fn sticky_index_json_roundtrip() {
    let doc = Doc::new(Some(1), false);
    let mut txn = doc.create_transaction().unwrap();
    let text = txn.get_or_insert_text("text").unwrap();
    text.insert(&mut txn, 0, "hello").unwrap();
    let anchor = text.sticky_index(&mut txn, 1, Assoc::After).unwrap();
    let json = anchor.to_json_string().unwrap();
    let back = get_sticky_index_from_json_string(&json).unwrap();
    assert_eq!(
        back.get_offset(&txn).unwrap(),
        anchor.get_offset(&txn).unwrap()
    );
    assert_eq!(back.get_assoc(), anchor.get_assoc());
}

#[test]
fn sticky_index_decode_rejects_garbage() {
    assert!(decode_sticky_index(&[0xFF, 0xFE, 0xFD]).is_err());
    assert!(get_sticky_index_from_json_string("not json").is_err());
}

#[test]
fn sticky_index_beyond_length_is_rejected() {
    let doc = Doc::new(Some(1), false);
    let mut txn = doc.create_transaction().unwrap();
    let text = txn.get_or_insert_text("text").unwrap();
    text.insert(&mut txn, 0, "hi").unwrap();
    let r = text.sticky_index(&mut txn, 10, Assoc::After);
    assert!(matches!(r, Err(Error::OutOfBounds)));
}

#[test]
fn restore_from_garbage_collecting_doc_reports_missing_history() {
    let doc = Doc::new(Some(1), false);
    {
        let mut txn = doc.create_transaction().unwrap();
        let text = txn.get_or_insert_text("text").unwrap();
        text.insert(&mut txn, 0, "abc").unwrap();
    }
    let snap = {
        let txn = doc.create_transaction().unwrap();
        doc.snapshot(&txn)
    };
    let r = Doc::from_snapshot(&doc, &snap);
    assert!(matches!(r, Err(Error::MissingDependency)));
}

#[test]
fn concurrent_prepends_order_lower_client_first() {
    // the documented tie-break: the lower client identifier's run wins
    let a = Doc::new(Some(1), false);
    let b = Doc::new(Some(2), false);
    {
        let mut txn = a.create_transaction().unwrap();
        let text = txn.get_or_insert_text("text").unwrap();
        text.insert(&mut txn, 0, "ab").unwrap();
    }
    {
        let mut txn = b.create_transaction().unwrap();
        let text = txn.get_or_insert_text("text").unwrap();
        text.insert(&mut txn, 0, "xy").unwrap();
    }
    let empty_state = vec![0u8];
    let (ua, ub) = {
        let ta = a.create_transaction().unwrap();
        let tb = b.create_transaction().unwrap();
        (
            a.get_update(&ta, &empty_state).unwrap(),
            b.get_update(&tb, &empty_state).unwrap(),
        )
    };
    {
        let mut txn = a.create_transaction().unwrap();
        a.apply_update(&mut txn, &ub).unwrap();
    }
    {
        let mut txn = b.create_transaction().unwrap();
        b.apply_update(&mut txn, &ua).unwrap();
    }
    for doc in [&a, &b] {
        let mut txn = doc.create_transaction().unwrap();
        let text = txn.get_or_insert_text("text").unwrap();
        assert_eq!(text.get_string(&txn), "abxy");
    }
}

#[test]
fn undo_stacks_persist_through_encode_and_seeding() {
    let doc = Doc::new(Some(9), false);
    let mut mgr = UndoManager::new(&doc, 60_000, vec![], vec![]).unwrap();
    let text_handle = {
        let mut txn = doc.create_transaction().unwrap();
        txn.get_or_insert_text("text").unwrap()
    };
    mgr.expand_scope_text(&text_handle).unwrap();
    {
        let mut txn = doc.create_transaction().unwrap();
        let text = txn.get_or_insert_text("text").unwrap();
        text.insert(&mut txn, 0, "abc").unwrap();
    }
    // persist the undo stack as bytes, as a session store would
    let saved: Vec<(Vec<u8>, Vec<u8>)> = mgr
        .undo_stack()
        .iter()
        .map(|item| item.encode())
        .collect();
    assert_eq!(saved.len(), 1);
    drop(mgr);
    // a later session decodes the items and seeds a fresh manager
    let restored: Vec<crdt_core::undo::StackItem> = saved
        .iter()
        .map(|(d, i)| crdt_core::undo::StackItem::decode(d, i).unwrap())
        .collect();
    let mut revived = UndoManager::new(&doc, 60_000, restored, vec![]).unwrap();
    revived.expand_scope_text(&text_handle).unwrap();
    // the seeded stack reads back as the saved items, in order
    let read_back: Vec<(Vec<u8>, Vec<u8>)> = revived
        .undo_stack()
        .iter()
        .map(|item| item.encode())
        .collect();
    assert_eq!(read_back, saved);
    // and undoing through it reverts the persisted edit
    assert!(revived.can_undo());
    assert_eq!(revived.undo().unwrap(), true);
    {
        let mut txn = doc.create_transaction().unwrap();
        let text = txn.get_or_insert_text("text").unwrap();
        assert_eq!(text.get_string(&txn), "");
    }
}

#[test]
fn seeding_rejects_clients_outside_the_engine_space() {
    let doc = Doc::new(Some(1), false);
    let mut dels = crdt_core::delete_set::DeleteSet::new();
    dels.insert(1u64 << 53, 0, 1);
    let item =
        crdt_core::undo::StackItem::from_parts(dels, crdt_core::delete_set::DeleteSet::new());
    let r = UndoManager::new(&doc, 500, vec![item], vec![]);
    assert!(matches!(r, Err(Error::Decode { offset: 0 })));
}

struct SharedClock(std::sync::Arc<std::sync::atomic::AtomicU64>);

impl yrs::sync::Clock for SharedClock {
    fn now(&self) -> yrs::sync::Timestamp {
        self.0.load(std::sync::atomic::Ordering::SeqCst)
    }
}

#[test]
fn injected_clock_makes_coalescing_deterministic() {
    let doc = Doc::new(Some(1), false);
    let time = std::sync::Arc::new(std::sync::atomic::AtomicU64::new(1));
    let mut options = yrs::undo::Options::<()>::default();
    options.capture_timeout_millis = 10;
    options.timestamp = std::sync::Arc::new(SharedClock(time.clone()));
    let mut mgr = crdt_core::undo::UndoManager::from_engine(
        &doc,
        yrs::undo::UndoManager::with_options(options),
    );
    let text_handle = {
        let mut txn = doc.create_transaction().unwrap();
        txn.get_or_insert_text("text").unwrap()
    };
    mgr.expand_scope_text(&text_handle).unwrap();
    // two edits at the same injected instant coalesce
    {
        let mut txn = doc.create_transaction().unwrap();
        let text = txn.get_or_insert_text("text").unwrap();
        text.insert(&mut txn, 0, "a").unwrap();
    }
    {
        let mut txn = doc.create_transaction().unwrap();
        let text = txn.get_or_insert_text("text").unwrap();
        text.insert(&mut txn, 1, "b").unwrap();
    }
    assert_eq!(mgr.undo_stack().len(), 1);
    // an edit past the window, by the injected clock alone, starts a new item
    time.store(100, std::sync::atomic::Ordering::SeqCst);
    {
        let mut txn = doc.create_transaction().unwrap();
        let text = txn.get_or_insert_text("text").unwrap();
        text.insert(&mut txn, 2, "c").unwrap();
    }
    assert_eq!(mgr.undo_stack().len(), 2);
}

#[test]
fn scope_expansion_during_transaction_is_a_concurrency_error() {
    let doc = Doc::new(Some(1), false);
    let mut mgr = UndoManager::new(&doc, 500, vec![], vec![]).unwrap();
    let mut txn = doc.create_transaction().unwrap();
    let text = txn.get_or_insert_text("text").unwrap();
    // the transaction is still open: tracking cannot register observers
    assert!(matches!(
        mgr.expand_scope_text(&text),
        Err(Error::Concurrency)
    ));
    drop(txn);
    assert!(mgr.expand_scope_text(&text).is_ok());
}

#[test]
fn clear_during_transaction_is_a_concurrency_error() {
    let doc = Doc::new(Some(1), false);
    let mut mgr = UndoManager::new(&doc, 0, vec![], vec![]).unwrap();
    let text_handle = {
        let mut txn = doc.create_transaction().unwrap();
        txn.get_or_insert_text("text").unwrap()
    };
    mgr.expand_scope_text(&text_handle).unwrap();
    {
        let mut txn = doc.create_transaction().unwrap();
        let text = txn.get_or_insert_text("text").unwrap();
        text.insert(&mut txn, 0, "a").unwrap();
    }
    let txn = doc.create_transaction().unwrap();
    assert!(matches!(mgr.clear(), Err(Error::Concurrency)));
    drop(txn);
    assert!(mgr.clear().is_ok());
    assert!(!mgr.can_undo());
}
