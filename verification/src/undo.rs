//! The undo manager and its stack items.
//!
//! A stack item is one undoable unit: the deletions and insertions of a
//! group of temporally adjacent transactions, each recorded as a delete
//! set. Merging two items unions the two halves independently. The manager
//! itself — capture, scope filtering and inverse application — is the
//! engine's; this module drives it and converts its stacks into verified
//! values.

use vstd::prelude::*;
use yrs::Doc as YrsDoc;
use yrs::undo::UndoManager as YrsUndoManager;
use crate::delete_set::{
    ds_clients_fit, ds_contains, ds_wf, stack_data_ok, DeleteSet, DsModel,
};
use crate::doc::{Array, Doc, MapRoot, Text, XmlFragment};
use crate::engine::{
    yrs_doc_clone, yrs_doc_lock_free, yrs_undo_blocking, yrs_undo_can_redo, yrs_undo_can_undo,
    yrs_undo_clear, yrs_undo_exclude_origin, yrs_undo_expand_scope_array,
    yrs_undo_expand_scope_map, yrs_undo_expand_scope_text, yrs_undo_expand_scope_xml,
    yrs_undo_include_origin, yrs_undo_new, yrs_undo_redo_blocking, yrs_undo_redo_stack_data,
    yrs_undo_stack_data,
};
use crate::errors::Error;
use crate::json::json_ds;
use crate::wire::ds_enc;

verus! {

/// The JSON form of a stack item: its two delete sets under fixed keys.
pub open spec fn json_stack_item(deletions: DsModel, insertions: DsModel) -> Seq<char> {
    ("{\"deletions\":")@ + json_ds(deletions) + (",\"insertions\":")@ + json_ds(insertions)
        + ("}")@
}

/// One undoable unit: the deletions and insertions captured for a group of
/// temporally adjacent transactions.
pub struct StackItem {
    deletions: DeleteSet,
    insertions: DeleteSet,
}

impl View for StackItem {
    type V = (DsModel, DsModel);

    closed spec fn view(&self) -> (DsModel, DsModel) {
        (self.deletions@, self.insertions@)
    }
}

impl StackItem {
    /// Assembles a stack item from its two halves.
    pub fn from_parts(deletions: DeleteSet, insertions: DeleteSet) -> (r: StackItem)
        ensures
            r@ == (deletions@, insertions@),
    {
        StackItem { deletions, insertions }
    }

    /// The delete set of operations this item would re-insert when undone.
    pub fn deletions(&self) -> (r: &DeleteSet)
        ensures
            r@ == self@.0,
    {
        &self.deletions
    }

    /// The delete set of operations this item would re-delete when undone.
    pub fn insertions(&self) -> (r: &DeleteSet)
        ensures
            r@ == self@.1,
    {
        &self.insertions
    }

    /// The canonical binary form: the deletions' bytes and the insertions'
    /// bytes.
    pub fn encode(&self) -> (r: (Vec<u8>, Vec<u8>))
        requires
            ds_wf(self@.0),
            ds_wf(self@.1),
        ensures
            r.0@ == ds_enc(self@.0),
            r.1@ == ds_enc(self@.1),
    {
        (self.deletions.encode(), self.insertions.encode())
    }

    /// Decodes a stack item from the two canonical byte strings; any
    /// deviation is a decode error carrying the offset of the first
    /// unusable byte of the failing half.
    pub fn decode(deletions_data: &[u8], insertions_data: &[u8]) -> (r: Result<StackItem, Error>)
        ensures
            match r {
                Ok(item) => {
                    &&& crate::wire::ds_dec(deletions_data@) == Some(item@.0)
                    &&& crate::wire::ds_dec(insertions_data@) == Some(item@.1)
                    &&& ds_wf(item@.0)
                    &&& ds_wf(item@.1)
                },
                Err(e) => (crate::wire::ds_dec(deletions_data@) is None || crate::wire::ds_dec(
                    insertions_data@,
                ) is None) && e matches Error::Decode { .. },
            },
    {
        let deletions = match DeleteSet::decode(deletions_data) {
            Ok(ds) => ds,
            Err(e) => {
                return Err(e);
            },
        };
        let insertions = match DeleteSet::decode(insertions_data) {
            Ok(ds) => ds,
            Err(e) => {
                return Err(e);
            },
        };
        Ok(StackItem { deletions, insertions })
    }

    /// This stack item in its JSON form.
    pub fn to_json_string(&self) -> (r: String)
        ensures
            r@ == json_stack_item(self@.0, self@.1),
    {
        let mut out = String::new();
        out.push_str("{\"deletions\":");
        self.deletions.append_json(&mut out);
        out.push_str(",\"insertions\":");
        self.insertions.append_json(&mut out);
        out.push_str("}");
        proof {
            assert(out@ =~= json_stack_item(self@.0, self@.1));
        }
        out
    }

    /// The union of two stack items: an operation is recorded among the
    /// result's deletions exactly when either input recorded it there, and
    /// likewise for the insertions.
    pub fn merge(a: &StackItem, b: &StackItem) -> (r: StackItem)
        requires
            ds_wf(a@.0),
            ds_wf(a@.1),
            ds_wf(b@.0),
            ds_wf(b@.1),
        ensures
            ds_wf(r@.0),
            ds_wf(r@.1),
            forall|cl: u64, c: int| #[trigger]
                ds_contains(r@.0, cl, c) <==> ds_contains(a@.0, cl, c) || ds_contains(b@.0, cl, c),
            forall|cl: u64, c: int| #[trigger]
                ds_contains(r@.1, cl, c) <==> ds_contains(a@.1, cl, c) || ds_contains(b@.1, cl, c),
    {
        let mut deletions = DeleteSet::new();
        deletions.merge_with(&a.deletions);
        deletions.merge_with(&b.deletions);
        let mut insertions = DeleteSet::new();
        insertions.merge_with(&a.insertions);
        insertions.merge_with(&b.insertions);
        StackItem { deletions, insertions }
    }
}

/// Scoped capture of transactions into undoable stack items, with
/// origin-based filtering and timed coalescing, over one document.
pub struct UndoManager {
    mgr: YrsUndoManager<()>,
    doc: YrsDoc,
}

/// Every half of every stack item is canonical: what seeding requires of
/// the initial stacks.
pub open spec fn stack_items_wf(items: Seq<StackItem>) -> bool {
    forall|i: int| 0 <= i < items.len() ==> ds_wf((#[trigger] items[i])@.0) && ds_wf(items[i]@.1)
}

/// Every half of every stack item names only clients of the engine's
/// identifier space.
pub open spec fn stack_items_fit(items: Seq<StackItem>) -> bool {
    forall|i: int|
        0 <= i < items.len() ==> ds_clients_fit((#[trigger] items[i])@.0) && ds_clients_fit(
            items[i]@.1,
        )
}

impl UndoManager {
    /// An undo manager over `doc`, its undo and redo stacks seeded with
    /// the given items (typically decoded from a persisted session) in
    /// their given order. Transactions whose changes touch the tracked
    /// scope are captured; edits within `capture_timeout_millis` of each
    /// other coalesce into one stack item. Until origins are added, only
    /// transactions without an origin are tracked. The capture clock is
    /// the engine's system clock; an embedding that needs an injected
    /// clock builds the engine manager itself and hands it to
    /// [`UndoManager::from_engine`], since an engine clock implementation
    /// cannot stand in this crate. Fails exactly when a seeded item names
    /// a client outside the engine's identifier space.
    pub fn new(
        doc: &Doc,
        capture_timeout_millis: u64,
        undo_stack: Vec<StackItem>,
        redo_stack: Vec<StackItem>,
    ) -> (r: Result<UndoManager, Error>)
        requires
            stack_items_wf(undo_stack@),
            stack_items_wf(redo_stack@),
        ensures
            r is Ok <==> stack_items_fit(undo_stack@) && stack_items_fit(redo_stack@),
            r matches Err(e) ==> e == (Error::Decode { offset: 0 }),
    {
        let undo_data = match stack_data_checked(&undo_stack) {
            Some(d) => d,
            None => {
                return Err(Error::Decode { offset: 0 });
            },
        };
        let redo_data = match stack_data_checked(&redo_stack) {
            Some(d) => d,
            None => {
                return Err(Error::Decode { offset: 0 });
            },
        };
        Ok(
            UndoManager {
                mgr: yrs_undo_new(&doc.handle, capture_timeout_millis, &undo_data, &redo_data),
                doc: yrs_doc_clone(&doc.handle),
            },
        )
    }

    /// Wraps an undo manager the embedding layer built itself, for
    /// configurations this crate cannot express — above all an injected
    /// capture clock. The manager must have been built for `doc` and must
    /// track no other document: the lock probes guarding the calls that
    /// take the document's lock probe this document alone.
    pub fn from_engine(doc: &Doc, mgr: YrsUndoManager<()>) -> UndoManager {
        UndoManager { mgr, doc: yrs_doc_clone(&doc.handle) }
    }

    /// Adds a text root to the tracked scope; fails with a concurrency
    /// error while a transaction is outstanding on the document, because
    /// tracking registers engine observers through the document's write
    /// lock. The non-atomic probe note of [`UndoManager::undo`] applies.
    pub fn expand_scope_text(&mut self, scope: &Text) -> (r: Result<(), Error>)
        ensures
            r matches Err(e) ==> e == Error::Concurrency,
    {
        if yrs_undo_expand_scope_text(&mut self.mgr, &self.doc, &scope.text) {
            Ok(())
        } else {
            Err(Error::Concurrency)
        }
    }

    /// As [`UndoManager::expand_scope_text`], for an array root.
    pub fn expand_scope_array(&mut self, scope: &Array) -> (r: Result<(), Error>)
        ensures
            r matches Err(e) ==> e == Error::Concurrency,
    {
        if yrs_undo_expand_scope_array(&mut self.mgr, &self.doc, &scope.array) {
            Ok(())
        } else {
            Err(Error::Concurrency)
        }
    }

    /// As [`UndoManager::expand_scope_text`], for a map root.
    pub fn expand_scope_map(&mut self, scope: &MapRoot) -> (r: Result<(), Error>)
        ensures
            r matches Err(e) ==> e == Error::Concurrency,
    {
        if yrs_undo_expand_scope_map(&mut self.mgr, &self.doc, &scope.map) {
            Ok(())
        } else {
            Err(Error::Concurrency)
        }
    }

    /// As [`UndoManager::expand_scope_text`], for an XML fragment root.
    pub fn expand_scope_xmlfragment(&mut self, scope: &XmlFragment) -> (r: Result<(), Error>)
        ensures
            r matches Err(e) ==> e == Error::Concurrency,
    {
        if yrs_undo_expand_scope_xml(&mut self.mgr, &self.doc, &scope.fragment) {
            Ok(())
        } else {
            Err(Error::Concurrency)
        }
    }

    /// Also captures transactions tagged with `origin`.
    pub fn include_origin(&mut self, origin: i128) {
        yrs_undo_include_origin(&mut self.mgr, origin);
    }

    /// Stops capturing transactions tagged with `origin`.
    pub fn exclude_origin(&mut self, origin: i128) {
        yrs_undo_exclude_origin(&mut self.mgr, origin);
    }

    /// Whether an undo step is available.
    pub fn can_undo(&self) -> bool {
        yrs_undo_can_undo(&self.mgr)
    }

    /// Whether a redo step is available.
    pub fn can_redo(&self) -> bool {
        yrs_undo_can_redo(&self.mgr)
    }

    /// Reverts the most recent stack item, moving its inverse to the redo
    /// stack; an empty stack is a normal no-op reported as `false`. Fails
    /// with a concurrency error while a transaction is outstanding on the
    /// document. The availability probe and the engine call are not one
    /// atomic step, so if handles to the same document are driven from
    /// other threads the call may block instead of failing.
    pub fn undo(&mut self) -> (r: Result<bool, Error>)
        ensures
            r matches Err(e) ==> e == Error::Concurrency,
    {
        if !yrs_doc_lock_free(&self.doc) {
            return Err(Error::Concurrency);
        }
        Ok(yrs_undo_blocking(&mut self.mgr))
    }

    /// Reapplies the most recently undone stack item; an empty stack is a
    /// normal no-op reported as `false`. Fails with a concurrency error
    /// while a transaction is outstanding on the document; the same
    /// non-atomic probe note as [`UndoManager::undo`] applies.
    pub fn redo(&mut self) -> (r: Result<bool, Error>)
        ensures
            r matches Err(e) ==> e == Error::Concurrency,
    {
        if !yrs_doc_lock_free(&self.doc) {
            return Err(Error::Concurrency);
        }
        Ok(yrs_undo_redo_blocking(&mut self.mgr))
    }

    /// Empties both stacks; fails with a concurrency error while a
    /// transaction is outstanding on the document, because clearing reads
    /// the document under its lock. The non-atomic probe note of
    /// [`UndoManager::undo`] applies.
    pub fn clear(&mut self) -> (r: Result<(), Error>)
        ensures
            r matches Err(e) ==> e == Error::Concurrency,
    {
        if yrs_undo_clear(&mut self.mgr, &self.doc) {
            Ok(())
        } else {
            Err(Error::Concurrency)
        }
    }

    /// The undo stack as verified values, oldest first, each half in
    /// canonical form.
    pub fn undo_stack(&self) -> (r: Vec<StackItem>)
        ensures
            forall|i: int|
                0 <= i < r@.len() ==> ds_wf((#[trigger] r@[i])@.0) && ds_wf(r@[i]@.1),
    {
        stack_items_from_data(yrs_undo_stack_data(&self.mgr))
    }

    /// The redo stack as verified values, oldest first, each half in
    /// canonical form.
    pub fn redo_stack(&self) -> (r: Vec<StackItem>)
        ensures
            forall|i: int|
                0 <= i < r@.len() ==> ds_wf((#[trigger] r@[i])@.0) && ds_wf(r@[i]@.1),
    {
        stack_items_from_data(yrs_undo_redo_stack_data(&self.mgr))
    }
}

/// Converts stack items into the plain nested data the engine wrapper
/// takes, failing exactly when some item names an unfit client.
fn stack_data_checked(items: &Vec<StackItem>) -> (r: Option<
    Vec<(Vec<(u64, Vec<(u32, u32)>)>, Vec<(u64, Vec<(u32, u32)>)>)>,
>)
    requires
        stack_items_wf(items@),
    ensures
        r is Some <==> stack_items_fit(items@),
        r matches Some(d) ==> stack_data_ok(d@),
{
    let n = items.len();
    let mut out: Vec<(Vec<(u64, Vec<(u32, u32)>)>, Vec<(u64, Vec<(u32, u32)>)>)> = Vec::new();
    let mut i: usize = 0;
    while i < n
        invariant
            n == items@.len(),
            i <= n,
            stack_items_wf(items@),
            stack_data_ok(out@),
            out@.len() == i,
            forall|j: int|
                0 <= j < i ==> ds_clients_fit((#[trigger] items@[j])@.0) && ds_clients_fit(
                    items@[j]@.1,
                ),
        decreases n - i,
    {
        let item = &items[i];
        if !item.deletions.clients_fit() || !item.insertions.clients_fit() {
            return None;
        }
        let dels = item.deletions.to_entries();
        let inss = item.insertions.to_entries();
        proof {
            assert(crate::delete_set::entries_clients_fit(dels@)) by {
                assert(forall|q: int|
                    0 <= q < dels@.len() ==> (#[trigger] dels@[q]).0 == crate::delete_set::ev(
                        dels@,
                    )[q].0);
            }
            assert(crate::delete_set::entries_clients_fit(inss@)) by {
                assert(forall|q: int|
                    0 <= q < inss@.len() ==> (#[trigger] inss@[q]).0 == crate::delete_set::ev(
                        inss@,
                    )[q].0);
            }
        }
        let ghost pre = out@;
        out.push((dels, inss));
        proof {
            assert(stack_data_ok(out@)) by {
                assert(forall|q: int| 0 <= q < pre.len() ==> out@[q] == pre[q]);
            }
        }
        i = i + 1;
    }
    Some(out)
}

/// Normalises raw stack data into verified stack items.
fn stack_items_from_data(
    data: Vec<(Vec<(u64, Vec<(u32, u32)>)>, Vec<(u64, Vec<(u32, u32)>)>)>,
) -> (r: Vec<StackItem>)
    ensures
        forall|i: int| 0 <= i < r@.len() ==> ds_wf((#[trigger] r@[i])@.0) && ds_wf(r@[i]@.1),
{
    let n = data.len();
    let mut out: Vec<StackItem> = Vec::new();
    let mut i: usize = 0;
    while i < n
        invariant
            n == data@.len(),
            i <= n,
            forall|j: int| 0 <= j < out@.len() ==> ds_wf((#[trigger] out@[j])@.0) && ds_wf(
                out@[j]@.1,
            ),
        decreases n - i,
    {
        let (dels, inss) = &data[i];
        let item = StackItem {
            deletions: DeleteSet::from_entries(dels),
            insertions: DeleteSet::from_entries(inss),
        };
        out.push(item);
        i = i + 1;
    }
    out
}

} // verus!

verus! {

/// Round trip: decoding the two encoded halves of a stack item yields
/// exactly the stack item again.
pub proof fn lemma_stack_item_roundtrip(item: (DsModel, DsModel))
    requires
        ds_wf(item.0),
        ds_wf(item.1),
        item.0.len() <= u64::MAX,
        item.1.len() <= u64::MAX,
        forall|i: int| 0 <= i < item.0.len() ==> (#[trigger] item.0[i]).1.len() <= u64::MAX,
        forall|i: int| 0 <= i < item.1.len() ==> (#[trigger] item.1[i]).1.len() <= u64::MAX,
    ensures
        crate::wire::ds_dec(ds_enc(item.0)) == Some(item.0),
        crate::wire::ds_dec(ds_enc(item.1)) == Some(item.1),
{
    crate::wire::lemma_ds_roundtrip(item.0);
    crate::wire::lemma_ds_roundtrip(item.1);
}

} // verus!
