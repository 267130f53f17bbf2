//! Documents, transactions and root shared types.
//!
//! A document owns its root shared types and a single-writer transaction
//! gate; all mutation flows through an exclusively acquired transaction.
//! Synchronisation data crossing this boundary is normalised into the
//! crate's verified state-vector and delete-set values.

use vstd::prelude::*;
use yrs::Doc as YrsDoc;
use crate::delete_set::{ds_clients_fit, DeleteSet};
use crate::engine::{
    fits_client_id, update_parses, yrs_doc_new, yrs_get_or_insert_array, yrs_get_or_insert_map,
    yrs_get_or_insert_text, yrs_get_or_insert_xml_fragment, yrs_merge_updates,
    yrs_text_get_string, yrs_text_insert, yrs_text_len, yrs_text_remove_range,
    yrs_try_transact_mut, yrs_try_transact_mut_with, yrs_txn_apply_update, yrs_txn_encode_diff,
    yrs_txn_encode_state_from_snapshot, yrs_txn_root_refs, yrs_txn_snapshot,
    yrs_txn_state_vector, yrs_update_decode,
};
use crate::errors::Error;
use crate::snapshot::Snapshot;
use crate::state_vector::{lemma_pairs_max_client_present, pairs_max, sv_clients_fit, sv_wf, StateVector};
use crate::wire::{lemma_sv_roundtrip, sv_dec, sv_enc};

verus! {

/// The kind of a root shared type.
#[derive(Debug, Clone, Copy, PartialEq, Eq, Structural)]
pub enum RootKind {
    Text,
    Array,
    MapRoot,
    XmlFragment,
    /// A root kind this crate does not manage.
    Other,
}

/// A collaborative document: root shared types, client identity and the
/// single-writer transaction gate.
pub struct Doc {
    pub(crate) handle: YrsDoc,
    pub(crate) client_id: u64,
    pub(crate) guid: String,
    pub(crate) skip_gc: bool,
    pub(crate) collection_id: Option<String>,
}

/// The exclusive write handle over a document; at most one exists per
/// document at a time, and its changes commit when it is dropped or
/// explicitly committed.
pub struct Transaction<'doc> {
    pub(crate) txn: yrs::TransactionMut<'doc>,
}

/// A text root: an ordered sequence of characters under CRDT management.
pub struct Text {
    pub(crate) text: yrs::TextRef,
}

/// An array root: an ordered sequence of values under CRDT management.
pub struct Array {
    pub(crate) array: yrs::ArrayRef,
}

/// A map root: a keyed collection under CRDT management.
pub struct MapRoot {
    pub(crate) map: yrs::MapRef,
}

/// An XML fragment root: an ordered tree of XML nodes under CRDT
/// management.
pub struct XmlFragment {
    pub(crate) fragment: yrs::XmlFragmentRef,
}

/// Does the root listing bind `name` to a kind other than `kind`? A root
/// whose kind the listing does not determine blocks nothing.
pub open spec fn spec_root_conflict(
    roots: Seq<(String, RootKind)>,
    name: Seq<char>,
    kind: RootKind,
) -> bool {
    exists|i: int|
        0 <= i < roots.len() && (#[trigger] roots[i]).0@ == name && roots[i].1 != kind
            && roots[i].1 != RootKind::Other
}

/// Whether the listing binds `name` to a kind other than `kind`; exactly
/// the type-mismatch condition of the root accessors.
pub fn root_kind_conflict(roots: &Vec<(String, RootKind)>, name: &str, kind: RootKind) -> (r: bool)
    ensures
        r == spec_root_conflict(roots@, name@, kind),
{
    let owned: String = name.to_owned();
    let n = roots.len();
    let mut i: usize = 0;
    while i < n
        invariant
            n == roots@.len(),
            owned@ == name@,
            i <= n,
            forall|j: int|
                0 <= j < i ==> !((#[trigger] roots@[j]).0@ == name@ && roots@[j].1 != kind
                    && roots@[j].1 != RootKind::Other),
        decreases n - i,
    {
        let (nm, kd) = &roots[i];
        if nm.eq(&owned) && *kd != kind && *kd != RootKind::Other {
            assert(spec_root_conflict(roots@, name@, kind));
            return true;
        }
        i = i + 1;
    }
    false
}

impl Doc {
    /// The client identifier this document stamps on its operations.
    pub closed spec fn spec_client_id(&self) -> u64 {
        self.client_id
    }

    /// The document's globally unique identifier.
    pub closed spec fn spec_guid(&self) -> Seq<char> {
        self.guid@
    }

    /// Whether garbage collection of tombstones is suppressed.
    pub closed spec fn spec_skip_gc(&self) -> bool {
        self.skip_gc
    }

    /// The collection this document is associated with, if any.
    pub closed spec fn spec_collection_id(&self) -> Option<Seq<char>> {
        match self.collection_id {
            Some(s) => Some(s@),
            None => None,
        }
    }

    /// Creates a document. A missing client id is drawn at random by the
    /// engine; client identifiers live in a 53-bit space.
    pub fn new(client_id: Option<u64>, skip_gc: bool) -> (r: Doc)
        requires
            client_id matches Some(c) ==> fits_client_id(c),
        ensures
            client_id matches Some(c) ==> r.spec_client_id() == c,
            fits_client_id(r.spec_client_id()),
            r.spec_skip_gc() == skip_gc,
            r.spec_collection_id() is None,
    {
        let (handle, id, guid) = yrs_doc_new(client_id, skip_gc, None, None);
        Doc { handle, client_id: id, guid, skip_gc, collection_id: None }
    }

    /// Creates a document with the engine's full option set: client id,
    /// garbage-collection setting, guid and collection id. Absent values
    /// are drawn at random (client id, guid) or left unset (collection
    /// id).
    pub fn with_options(
        client_id: Option<u64>,
        skip_gc: bool,
        guid: Option<String>,
        collection_id: Option<String>,
    ) -> (r: Doc)
        requires
            client_id matches Some(c) ==> fits_client_id(c),
        ensures
            client_id matches Some(c) ==> r.spec_client_id() == c,
            fits_client_id(r.spec_client_id()),
            r.spec_skip_gc() == skip_gc,
            guid matches Some(g) ==> r.spec_guid() == g@,
            collection_id matches Some(c) ==> r.spec_collection_id() matches Some(o) && o == c@,
            collection_id is None ==> r.spec_collection_id() is None,
    {
        let stored = clone_collection_id(&collection_id);
        let (handle, id, guid_value) = yrs_doc_new(client_id, skip_gc, guid, collection_id);
        Doc { handle, client_id: id, guid: guid_value, skip_gc, collection_id: stored }
    }

    /// The client identifier this document stamps on its operations.
    pub fn client_id(&self) -> (r: u64)
        ensures
            r == self.spec_client_id(),
    {
        self.client_id
    }

    /// The document's globally unique identifier.
    pub fn guid(&self) -> (r: String)
        ensures
            r@ == self.spec_guid(),
    {
        self.guid.clone()
    }

    /// Whether garbage collection of tombstones is suppressed.
    pub fn skip_gc(&self) -> (r: bool)
        ensures
            r == self.spec_skip_gc(),
    {
        self.skip_gc
    }

    /// The collection this document is associated with, if any.
    pub fn collection_id(&self) -> (r: Option<String>)
        ensures
            r matches Some(s) ==> self.spec_collection_id() matches Some(o) && s@ == o,
            r is None <==> self.spec_collection_id() is None,
    {
        clone_collection_id(&self.collection_id)
    }

    /// Acquires the exclusive write transaction; fails with a concurrency
    /// error while another transaction is outstanding, in which case the
    /// caller must retry rather than block.
    pub fn create_transaction(&self) -> (r: Result<Transaction<'_>, Error>)
        ensures
            r matches Err(e) ==> e == Error::Concurrency,
    {
        match yrs_try_transact_mut(&self.handle) {
            Ok(txn) => Ok(Transaction { txn }),
            Err(_) => Err(Error::Concurrency),
        }
    }

    /// As [`Doc::create_transaction`], tagging the transaction with an
    /// origin for undo-scope filtering.
    pub fn create_transaction_with_origin(&self, origin: i128) -> (r: Result<
        Transaction<'_>,
        Error,
    >)
        ensures
            r matches Err(e) ==> e == Error::Concurrency,
    {
        match yrs_try_transact_mut_with(&self.handle, origin) {
            Ok(txn) => Ok(Transaction { txn }),
            Err(_) => Err(Error::Concurrency),
        }
    }

    /// The document's causal state as a canonical state vector; every
    /// client it names fits the engine's identifier space.
    pub fn state_vector(&self, txn: &Transaction<'_>) -> (r: StateVector)
        ensures
            sv_wf(r@),
            sv_clients_fit(r@),
    {
        let pairs = yrs_txn_state_vector(&txn.txn);
        let sv = StateVector::from_pairs(&pairs);
        proof {
            assert forall|i: int|
                0 <= i < sv@.len() implies fits_client_id((#[trigger] sv@[i]).0) by {
                crate::state_vector::lemma_sv_get_at(sv@, i);
                assert(pairs_max(pairs@, sv@[i].0) > 0);
                lemma_pairs_max_client_present(pairs@, sv@[i].0);
                let j = choose|j: int|
                    0 <= j < pairs@.len() && (#[trigger] pairs@[j]).0 == sv@[i].0;
            }
        }
        sv
    }

    /// The document's causal state in canonical binary form: always the
    /// encoding of some well-formed state vector naming only clients of
    /// the engine's identifier space, so it decodes exactly and
    /// [`Doc::get_update`] accepts it (see
    /// [`lemma_encoded_state_feeds_get_update`]).
    pub fn get_state(&self, txn: &Transaction<'_>) -> (r: Vec<u8>)
        ensures
            exists|sv: Seq<(u64, u32)>|
                sv_wf(sv) && sv_clients_fit(sv) && sv.len() <= u64::MAX && r@ == #[trigger] sv_enc(
                    sv,
                ),
    {
        let sv = self.state_vector(txn);
        let n = sv.client_count();
        let bytes = sv.encode();
        proof {
            assert(sv@.len() == n as int);
            assert(sv_wf(sv@) && sv_clients_fit(sv@) && sv@.len() <= u64::MAX && bytes@ == sv_enc(
                sv@,
            ));
        }
        bytes
    }

    /// Encodes the operations a peer with the given encoded state vector
    /// lacks. The state bytes must be a canonical state-vector encoding
    /// naming clients in the engine's 53-bit space; otherwise the decode
    /// error says where they break.
    pub fn get_update(&self, txn: &Transaction<'_>, state: &[u8]) -> (r: Result<Vec<u8>, Error>)
        ensures
            r is Ok ==> (sv_dec(state@) matches Some(es) && sv_clients_fit(es)),
            r matches Err(e) ==> ((sv_dec(state@) is None && e matches Error::Decode { .. }) || (
            sv_dec(state@) matches Some(es) && !sv_clients_fit(es) && e == (Error::Decode {
                offset: 0,
            }))),
    {
        let sv = match StateVector::decode(state) {
            Ok(sv) => sv,
            Err(e) => {
                return Err(e);
            },
        };
        if !sv.clients_fit() {
            proof {
                assert(sv_dec(state@) == Some(sv@));
                assert(!sv_clients_fit(sv@));
            }
            return Err(Error::Decode { offset: 0 });
        }
        let pairs = sv.to_pairs();
        proof {
            assert(sv_dec(state@) == Some(sv@));
            assert(sv_clients_fit(sv@));
        }
        Ok(yrs_txn_encode_diff(&txn.txn, &pairs))
    }

    /// Decodes and integrates a remote update. Malformed bytes are
    /// rejected before anything is touched, so a decode failure leaves the
    /// document unchanged; operations whose causal predecessors have not
    /// arrived yet are buffered by the engine and integrated once they do.
    pub fn apply_update(&self, txn: &mut Transaction<'_>, update: &[u8]) -> (r: Result<(), Error>)
        ensures
            r == Err::<(), Error>(Error::Decode { offset: 0 }) <==> !update_parses(update@),
            r matches Err(e) ==> e == (Error::Decode { offset: 0 }) || e
                == Error::MissingDependency,
    {
        let decoded = match yrs_update_decode(update) {
            Some(u) => u,
            None => {
                return Err(Error::Decode { offset: 0 });
            },
        };
        match yrs_txn_apply_update(&mut txn.txn, decoded) {
            Ok(()) => Ok(()),
            Err(_) => Err(Error::MissingDependency),
        }
    }

    /// The current name-to-kind listing of root shared types.
    pub fn roots(&self, txn: &Transaction<'_>) -> Vec<(String, RootKind)> {
        yrs_txn_root_refs(&txn.txn)
    }

    /// Captures the document's current causal and tombstone state as a
    /// snapshot, normalised into canonical form and detached from the
    /// document.
    pub fn snapshot(&self, txn: &Transaction<'_>) -> (r: Snapshot)
        ensures
            sv_wf(r@.0),
            crate::delete_set::ds_wf(r@.1),
    {
        let (sv_pairs, ds_entries) = yrs_txn_snapshot(&txn.txn);
        let sv = StateVector::from_pairs(&sv_pairs);
        let ds = DeleteSet::from_entries(&ds_entries);
        Snapshot::from_parts(sv, ds)
    }

    /// Rebuilds a document holding only the operations causally visible
    /// under `snapshot` (tombstones included), then re-creates the
    /// original's root names and kinds, so the root schema survives even
    /// for roots empty under the snapshot. The restored document keeps the
    /// original's client id, guid and garbage-collection setting. The
    /// original must have been created with garbage collection suppressed;
    /// otherwise the history the snapshot needs may be gone and the engine
    /// reports the dependency as missing.
    pub fn from_snapshot(original: &Doc, snapshot: &Snapshot) -> (r: Result<Doc, Error>)
        requires
            sv_wf(snapshot@.0),
            crate::delete_set::ds_wf(snapshot@.1),
            fits_client_id(original.spec_client_id()),
        ensures
            !(sv_clients_fit(snapshot@.0) && ds_clients_fit(snapshot@.1)) ==> r == Err::<
                Doc,
                Error,
            >(Error::Decode { offset: 0 }),
            match r {
                Ok(d) => {
                    &&& d.spec_client_id() == original.spec_client_id()
                    &&& d.spec_guid() == original.spec_guid()
                    &&& d.spec_skip_gc() == original.spec_skip_gc()
                    &&& d.spec_collection_id() == original.spec_collection_id()
                },
                Err(e) => {
                    ||| e matches Error::Decode { .. }
                    ||| e == Error::Concurrency
                    ||| e == Error::MissingDependency
                },
            },
    {
        if !snapshot.state_vector().clients_fit() || !snapshot.delete_set().clients_fit() {
            return Err(Error::Decode { offset: 0 });
        }
        let sv_pairs = snapshot.state_vector().to_pairs();
        let ds_entries = snapshot.delete_set().to_entries();
        proof {
            assert(forall|i: int|
                0 <= i < ds_entries@.len() ==> (#[trigger] ds_entries@[i]).0
                    == crate::delete_set::ev(ds_entries@)[i].0);
        }
        let (encoded, roots) = {
            let txn = match original.create_transaction() {
                Ok(t) => t,
                Err(e) => {
                    return Err(e);
                },
            };
            let encoded = match yrs_txn_encode_state_from_snapshot(
                &txn.txn,
                &sv_pairs,
                &ds_entries,
            ) {
                Some(b) => b,
                None => {
                    return Err(Error::MissingDependency);
                },
            };
            let roots = yrs_txn_root_refs(&txn.txn);
            (encoded, roots)
        };
        let (handle, id, guid) = yrs_doc_new(
            Some(original.client_id),
            original.skip_gc,
            Some(original.guid.clone()),
            clone_collection_id(&original.collection_id),
        );
        {
            let mut txn = match yrs_try_transact_mut(&handle) {
                Ok(t) => t,
                Err(_) => {
                    return Err(Error::Concurrency);
                },
            };
            let decoded = match yrs_update_decode(encoded.as_slice()) {
                Some(u) => u,
                None => {
                    return Err(Error::Decode { offset: 0 });
                },
            };
            match yrs_txn_apply_update(&mut txn, decoded) {
                Ok(()) => (),
                Err(_) => {
                    return Err(Error::MissingDependency);
                },
            }
            let n = roots.len();
            let mut i: usize = 0;
            while i < n
                invariant
                    n == roots@.len(),
                    i <= n,
                decreases n - i,
            {
                let (name, kind) = &roots[i];
                match kind {
                    RootKind::Text => {
                        let _ = yrs_get_or_insert_text(&mut txn, name.as_str());
                    },
                    RootKind::Array => {
                        let _ = yrs_get_or_insert_array(&mut txn, name.as_str());
                    },
                    RootKind::MapRoot => {
                        let _ = yrs_get_or_insert_map(&mut txn, name.as_str());
                    },
                    RootKind::XmlFragment => {
                        let _ = yrs_get_or_insert_xml_fragment(&mut txn, name.as_str());
                    },
                    RootKind::Other => (),
                }
                i = i + 1;
            }
        }
        Ok(
            Doc {
                handle,
                client_id: original.client_id,
                guid: original.guid.clone(),
                skip_gc: original.skip_gc,
                collection_id: clone_collection_id(&original.collection_id),
            },
        )
    }
}

/// A copy of an optional collection identifier.
fn clone_collection_id(c: &Option<String>) -> (r: Option<String>)
    ensures
        r matches Some(s) ==> c matches Some(o) && s@ == o@,
        r is None <==> c is None,
{
    match c {
        Some(s) => Some(s.clone()),
        None => None,
    }
}

impl<'doc> Transaction<'doc> {
    /// Finalises the transaction; the engine commits its changes when the
    /// handle is released.
    pub fn commit(self) {
    }

    /// Returns the root text under `name`, creating it when absent; fails
    /// with a type mismatch when the name is already bound to a different
    /// kind.
    pub fn get_or_insert_text(&mut self, name: &str) -> (r: Result<Text, Error>)
        ensures
            r matches Err(e) ==> e == Error::TypeMismatch,
    {
        let roots = yrs_txn_root_refs(&self.txn);
        if root_kind_conflict(&roots, name, RootKind::Text) {
            return Err(Error::TypeMismatch);
        }
        Ok(Text { text: yrs_get_or_insert_text(&mut self.txn, name) })
    }

    /// As [`Transaction::get_or_insert_text`], for an array root.
    pub fn get_or_insert_array(&mut self, name: &str) -> (r: Result<Array, Error>)
        ensures
            r matches Err(e) ==> e == Error::TypeMismatch,
    {
        let roots = yrs_txn_root_refs(&self.txn);
        if root_kind_conflict(&roots, name, RootKind::Array) {
            return Err(Error::TypeMismatch);
        }
        Ok(Array { array: yrs_get_or_insert_array(&mut self.txn, name) })
    }

    /// As [`Transaction::get_or_insert_text`], for a map root.
    pub fn get_or_insert_map(&mut self, name: &str) -> (r: Result<MapRoot, Error>)
        ensures
            r matches Err(e) ==> e == Error::TypeMismatch,
    {
        let roots = yrs_txn_root_refs(&self.txn);
        if root_kind_conflict(&roots, name, RootKind::MapRoot) {
            return Err(Error::TypeMismatch);
        }
        Ok(MapRoot { map: yrs_get_or_insert_map(&mut self.txn, name) })
    }

    /// As [`Transaction::get_or_insert_text`], for an XML fragment root.
    pub fn get_or_insert_xml_fragment(&mut self, name: &str) -> (r: Result<XmlFragment, Error>)
        ensures
            r matches Err(e) ==> e == Error::TypeMismatch,
    {
        let roots = yrs_txn_root_refs(&self.txn);
        if root_kind_conflict(&roots, name, RootKind::XmlFragment) {
            return Err(Error::TypeMismatch);
        }
        Ok(XmlFragment { fragment: yrs_get_or_insert_xml_fragment(&mut self.txn, name) })
    }
}

impl Text {
    /// The length of the visible text, in the engine's offset units
    /// (bytes by default).
    pub fn len(&self, txn: &Transaction<'_>) -> u32 {
        yrs_text_len(&self.text, &txn.txn)
    }

    /// The visible text as one string.
    pub fn get_string(&self, txn: &Transaction<'_>) -> String {
        yrs_text_get_string(&self.text, &txn.txn)
    }

    /// Inserts `chunk` before offset `index`; fails, changing nothing,
    /// when the offset lies outside the current content.
    pub fn insert(&self, txn: &mut Transaction<'_>, index: u32, chunk: &str) -> (r: Result<
        (),
        Error,
    >)
        ensures
            r matches Err(e) ==> e == Error::OutOfBounds,
    {
        if yrs_text_insert(&self.text, &mut txn.txn, index, chunk) {
            Ok(())
        } else {
            Err(Error::OutOfBounds)
        }
    }

    /// Appends `chunk` at the end of the text.
    pub fn push(&self, txn: &mut Transaction<'_>, chunk: &str) -> (r: Result<(), Error>)
        ensures
            r matches Err(e) ==> e == Error::OutOfBounds,
    {
        let at = yrs_text_len(&self.text, &txn.txn);
        self.insert(txn, at, chunk)
    }

    /// Tombstones `len` units starting at offset `index`; fails, changing
    /// nothing, when the range lies outside the current content.
    pub fn remove_range(&self, txn: &mut Transaction<'_>, index: u32, len: u32) -> (r: Result<
        (),
        Error,
    >)
        ensures
            r matches Err(e) ==> e == Error::OutOfBounds,
    {
        if yrs_text_remove_range(&self.text, &mut txn.txn, index, len) {
            Ok(())
        } else {
            Err(Error::OutOfBounds)
        }
    }
}

/// Compacts several binary updates into one representing the union of
/// their operations; fails with a decode error exactly when some input
/// does not parse as an update.
pub fn merge_updates(updates: &Vec<Vec<u8>>) -> (r: Result<Vec<u8>, Error>)
    ensures
        r is Ok <==> (forall|i: int|
            0 <= i < updates@.len() ==> update_parses((#[trigger] updates@[i])@)),
        r matches Err(e) ==> e == (Error::Decode { offset: 0 }),
{
    match yrs_merge_updates(updates) {
        Some(b) => Ok(b),
        None => Err(Error::Decode { offset: 0 }),
    }
}

/// Whether a committed transaction changed the document: its delete set
/// is non-empty or its causal state moved. The commit notification the
/// embedding layer dispatches fires exactly under this condition.
pub fn commit_changed(
    before: &StateVector,
    after: &StateVector,
    delete_set: &DeleteSet,
) -> (r: bool)
    ensures
        r == (delete_set@.len() > 0 || before@ != after@),
{
    !delete_set.is_empty() || !before.same_as(after)
}

/// What the document encodes, it accepts back: the bytes
/// [`Doc::get_state`] promises are the canonical encoding of a
/// well-formed, engine-fitting state vector, and such bytes decode to
/// exactly that vector, which is what [`Doc::get_update`] requires to
/// succeed.
pub proof fn lemma_encoded_state_feeds_get_update(sv: Seq<(u64, u32)>)
    requires
        sv_wf(sv),
        sv_clients_fit(sv),
        sv.len() <= u64::MAX,
    ensures
        sv_dec(sv_enc(sv)) == Some(sv),
        sv_dec(sv_enc(sv)) matches Some(es) ==> sv_clients_fit(es),
{
    lemma_sv_roundtrip(sv);
}

} // verus!

verus! {

impl Doc {
    /// A second handle to the engine document sharing the same store; the
    /// embedding layer uses it to register commit and subdocument
    /// observers, which stay outside this crate.
    pub fn raw_handle(&self) -> YrsDoc {
        crate::engine::yrs_doc_clone(&self.handle)
    }
}

} // verus!
