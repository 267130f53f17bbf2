//! Trusted declarations of the `yrs` CRDT engine: the types the crate
//! carries opaquely and thin wrappers around the engine calls it relies on.
//!
//! Everything here is believed, not proved; each wrapper's contract states
//! no more than the engine's own source and documentation show. Values of
//! the declared types are opaque to verification: the verified modules work
//! on plain values extracted from or handed to these wrappers.

use vstd::prelude::*;
use yrs::updates::decoder::Decode;
use yrs::updates::encoder::Encode;
use yrs::Doc as YrsDoc;
use yrs::StickyIndex as YrsStickyIndex;
use yrs::undo::UndoManager as YrsUndoManager;
use yrs::{GetString, ReadTxn, Text, Transact, WriteTxn};
use crate::assoc::Assoc;
use crate::delete_set::{entries_clients_fit, entries_ranges_ordered, stack_data_ok};
use crate::doc::RootKind;

verus! {

#[verifier::external_type_specification]
#[verifier::external_body]
pub struct ExYrsDoc(YrsDoc);

#[verifier::external_type_specification]
#[verifier::external_body]
pub struct ExYrsTransactionMut<'doc>(yrs::TransactionMut<'doc>);

#[verifier::external_type_specification]
#[verifier::external_body]
pub struct ExYrsTextRef(yrs::TextRef);

#[verifier::external_type_specification]
#[verifier::external_body]
pub struct ExYrsArrayRef(yrs::ArrayRef);

#[verifier::external_type_specification]
#[verifier::external_body]
pub struct ExYrsMapRef(yrs::MapRef);

#[verifier::external_type_specification]
#[verifier::external_body]
pub struct ExYrsXmlFragmentRef(yrs::XmlFragmentRef);

#[verifier::external_type_specification]
#[verifier::external_body]
pub struct ExYrsStickyIndex(YrsStickyIndex);

#[verifier::external_type_specification]
#[verifier::external_body]
pub struct ExYrsUpdate(yrs::Update);

#[verifier::external_type_specification]
#[verifier::external_body]
#[verifier::reject_recursive_types(M)]
pub struct ExYrsUndoManager<M>(YrsUndoManager<M>);

#[verifier::external_type_specification]
#[verifier::external_body]
pub struct ExYrsIdSet(yrs::IdSet);

/// Client identifiers handed to the engine must fit the 53 bits that
/// `yrs::block::ClientID` documents.
pub open spec fn fits_client_id(c: u64) -> bool {
    c < 0x20000000000000
}

/// Relies on `yrs::Doc::with_options`: builds a document with the given
/// client id, garbage-collection setting, guid and collection id, drawing a
/// random client id or guid where none is given; and on `Doc::client_id`
/// and `Doc::guid` to read back what was chosen.
#[verifier::external_body]
pub(crate) fn yrs_doc_new(
    client_id: Option<u64>,
    skip_gc: bool,
    guid: Option<String>,
    collection_id: Option<String>,
) -> (r: (YrsDoc, u64, String))
    requires
        client_id matches Some(c) ==> fits_client_id(c),
    ensures
        client_id matches Some(c) ==> r.1 == c,
        fits_client_id(r.1),
        guid matches Some(g) ==> r.2@ == g@,
{
    let mut options = yrs::Options::default();
    options.skip_gc = skip_gc;
    if let Some(c) = client_id {
        options.client_id = yrs::block::ClientID::new(c);
    }
    if let Some(g) = guid {
        options.guid = g.into();
    }
    if let Some(cid) = collection_id {
        options.collection_id = Some(cid.into());
    }
    let doc = YrsDoc::with_options(options);
    let id = doc.client_id().get();
    let g = doc.guid().to_string();
    (doc, id, g)
}

/// Relies on `yrs::Doc::clone`: another handle to the same shared
/// document store.
#[verifier::external_body]
pub(crate) fn yrs_doc_clone(doc: &YrsDoc) -> (r: YrsDoc) {
    doc.clone()
}

/// Relies on `yrs::Transact::try_transact_mut`: whether the document's
/// exclusive write lock can be taken right now; the probe transaction is
/// dropped at once.
#[verifier::external_body]
pub(crate) fn yrs_doc_lock_free(doc: &YrsDoc) -> (r: bool) {
    doc.try_transact_mut().is_ok()
}

/// Relies on `yrs::Transact::try_transact_mut`: acquires the document's
/// exclusive write lock, failing when another transaction is outstanding.
#[verifier::external_body]
pub(crate) fn yrs_try_transact_mut(doc: &YrsDoc) -> (r: Result<yrs::TransactionMut<'_>, ()>) {
    doc.try_transact_mut().map_err(|_| ())
}

/// Relies on `yrs::Transact::try_transact_mut_with`: as above, tagging the
/// transaction with the given origin.
#[verifier::external_body]
pub(crate) fn yrs_try_transact_mut_with(doc: &YrsDoc, origin: i128) -> (r: Result<
    yrs::TransactionMut<'_>,
    (),
>) {
    doc.try_transact_mut_with(origin).map_err(|_| ())
}

/// Relies on `yrs::WriteTxn::get_or_insert_text`: returns the root text
/// under `name`, creating it when absent.
#[verifier::external_body]
pub(crate) fn yrs_get_or_insert_text(txn: &mut yrs::TransactionMut<'_>, name: &str) -> (r:
    yrs::TextRef) {
    txn.get_or_insert_text(name)
}

/// Relies on `yrs::WriteTxn::get_or_insert_array`.
#[verifier::external_body]
pub(crate) fn yrs_get_or_insert_array(txn: &mut yrs::TransactionMut<'_>, name: &str) -> (r:
    yrs::ArrayRef) {
    txn.get_or_insert_array(name)
}

/// Relies on `yrs::WriteTxn::get_or_insert_map`.
#[verifier::external_body]
pub(crate) fn yrs_get_or_insert_map(txn: &mut yrs::TransactionMut<'_>, name: &str) -> (r:
    yrs::MapRef) {
    txn.get_or_insert_map(name)
}

/// Relies on `yrs::WriteTxn::get_or_insert_xml_fragment`.
#[verifier::external_body]
pub(crate) fn yrs_get_or_insert_xml_fragment(txn: &mut yrs::TransactionMut<'_>, name: &str) -> (r:
    yrs::XmlFragmentRef) {
    txn.get_or_insert_xml_fragment(name)
}

/// Relies on `yrs::ReadTxn::state_vector`: the per-client next-expected
/// clocks of the document, as plain pairs. The entries come from a hash
/// map, so their order is unspecified; callers normalise them. Every id
/// the engine hands out fits its 53-bit space, because `ClientID::get`
/// masks the identifier down to the low 53 bits.
#[verifier::external_body]
pub(crate) fn yrs_txn_state_vector(txn: &yrs::TransactionMut<'_>) -> (r: Vec<(u64, u32)>)
    ensures
        forall|i: int| 0 <= i < r@.len() ==> fits_client_id((#[trigger] r@[i]).0),
{
    txn.state_vector().iter().map(|(c, k)| (c.get(), *k)).collect()
}

/// Relies on `yrs::ReadTxn::encode_diff_v1`: encodes the operations the
/// given remote state vector lacks, in the engine's update format.
#[verifier::external_body]
pub(crate) fn yrs_txn_encode_diff(txn: &yrs::TransactionMut<'_>, sv: &Vec<(u64, u32)>) -> (r: Vec<
    u8,
>)
    requires
        forall|i: int| 0 <= i < sv@.len() ==> fits_client_id((#[trigger] sv@[i]).0),
{
    let remote: yrs::StateVector = sv.iter().map(
        |p: &(u64, u32)| (yrs::block::ClientID::new(p.0), p.1),
    ).collect();
    txn.encode_diff_v1(&remote)
}

/// Whether the given bytes parse as the engine's binary update format; a
/// function of the bytes alone.
pub uninterp spec fn update_parses(bytes: Seq<u8>) -> bool;

/// Relies on `yrs::updates::decoder::Decode::decode_v1` for `yrs::Update`:
/// parses the engine's binary update format, failing on malformed input.
/// Caveat: input naming a client outside the 53-bit space trips a debug
/// assertion inside the engine in debug builds; release builds mask such
/// an identifier into the space and parse on.
#[verifier::external_body]
pub(crate) fn yrs_update_decode(bytes: &[u8]) -> (r: Option<yrs::Update>)
    ensures
        r is Some <==> update_parses(bytes@),
{
    yrs::Update::decode_v1(bytes).ok()
}

/// Relies on `yrs::TransactionMut::apply_update`: integrates a remote
/// update; operations whose causal predecessors are missing are buffered
/// inside the document and integrated when the predecessors arrive.
#[verifier::external_body]
pub(crate) fn yrs_txn_apply_update(txn: &mut yrs::TransactionMut<'_>, update: yrs::Update) -> (r:
    Result<(), ()>) {
    txn.apply_update(update).map_err(|_| ())
}

/// Relies on `yrs::ReadTxn::root_refs`: the current name-to-kind mapping of
/// root shared types, one entry per root, mapped variant by variant.
#[verifier::external_body]
pub(crate) fn yrs_txn_root_refs(txn: &yrs::TransactionMut<'_>) -> (r: Vec<(String, RootKind)>) {
    txn.root_refs().map(|(k, v)| {
        let kind = match v {
            yrs::Out::YText(_) => RootKind::Text,
            yrs::Out::YArray(_) => RootKind::Array,
            yrs::Out::YMap(_) => RootKind::MapRoot,
            yrs::Out::YXmlFragment(_) => RootKind::XmlFragment,
            _ => RootKind::Other,
        };
        (k.to_string(), kind)
    }).collect()
}

/// Relies on `yrs::ReadTxn::snapshot`: the document's current state vector
/// and delete set, converted to plain pairs. The entries' order is
/// unspecified; callers normalise them.
#[verifier::external_body]
pub(crate) fn yrs_txn_snapshot(txn: &yrs::TransactionMut<'_>) -> (r: (
    Vec<(u64, u32)>,
    Vec<(u64, Vec<(u32, u32)>)>,
)) {
    let snap = txn.snapshot();
    let sv = snap.state_map.iter().map(|(c, k)| (c.get(), *k)).collect();
    let ds = snap.delete_set.iter().map(
        |(c, rs)| (c.get(), rs.iter().map(|r| (r.start, r.end)).collect()),
    ).collect();
    (sv, ds)
}

/// Relies on `yrs::ReadTxn::encode_state_from_snapshot` with
/// `yrs::Snapshot::new`, `yrs::IdSet::insert` and
/// `yrs::updates::encoder::EncoderV1`: rebuilds an engine snapshot value
/// from plain pairs and encodes, as an update, all operations visible
/// under it. Zero clocks are excluded because the engine's block walk
/// subtracts one from the clock of every known client.
#[verifier::external_body]
pub(crate) fn yrs_txn_encode_state_from_snapshot(
    txn: &yrs::TransactionMut<'_>,
    sv: &Vec<(u64, u32)>,
    ds: &Vec<(u64, Vec<(u32, u32)>)>,
) -> (r: Option<Vec<u8>>)
    requires
        forall|i: int| 0 <= i < sv@.len() ==> fits_client_id((#[trigger] sv@[i]).0),
        forall|i: int| 0 <= i < sv@.len() ==> (#[trigger] sv@[i]).1 >= 1,
        forall|i: int| 0 <= i < ds@.len() ==> fits_client_id((#[trigger] ds@[i]).0),
        entries_ranges_ordered(ds@),
{
    let mut set = yrs::IdSet::new();
    for (c, rs) in ds.iter() {
        for r in rs.iter() {
            set.insert(yrs::ID::new(yrs::block::ClientID::new(*c), r.0), r.1 - r.0);
        }
    }
    let state: yrs::StateVector = sv.iter().map(
        |p: &(u64, u32)| (yrs::block::ClientID::new(p.0), p.1),
    ).collect();
    let mut encoder = yrs::updates::encoder::EncoderV1::new();
    match txn.encode_state_from_snapshot(&yrs::Snapshot::new(state, set), &mut encoder) {
        Ok(()) => Some(yrs::updates::encoder::Encoder::to_vec(encoder)),
        Err(_) => None,
    }
}

/// Relies on `yrs::merge_updates_v1`: compacts several binary updates into
/// one representing their union. It decodes every input in turn and merges
/// the results, and only the decoding can fail, so it succeeds exactly
/// when every input parses. The same debug-build caveat as
/// [`yrs_update_decode`] applies to the decoding it performs.
#[verifier::external_body]
pub(crate) fn yrs_merge_updates(updates: &Vec<Vec<u8>>) -> (r: Option<Vec<u8>>)
    ensures
        r is Some <==> (forall|i: int|
            0 <= i < updates@.len() ==> update_parses((#[trigger] updates@[i])@)),
{
    yrs::merge_updates_v1(updates.iter().map(|u| u.as_slice())).ok()
}

/// Relies on `yrs::Text::len`: the length of the text in the units of the
/// document's offset kind (bytes by default).
#[verifier::external_body]
pub(crate) fn yrs_text_len(text: &yrs::TextRef, txn: &yrs::TransactionMut<'_>) -> (r: u32) {
    text.len(txn)
}

/// Relies on `yrs::GetString::get_string` for `yrs::TextRef`: the visible
/// text content as one string.
#[verifier::external_body]
pub(crate) fn yrs_text_get_string(text: &yrs::TextRef, txn: &yrs::TransactionMut<'_>) -> (r:
    String) {
    text.get_string(txn)
}

/// Relies on `yrs::Text::insert`: inserts `chunk` before byte offset
/// `index`. The offset is checked against the current content first, so the
/// engine's out-of-bounds panic cannot be reached; the result says whether
/// the insert was applied. The guard measures the visible string, which
/// matches the engine's byte-offset space for plain text content.
#[verifier::external_body]
pub(crate) fn yrs_text_insert(
    text: &yrs::TextRef,
    txn: &mut yrs::TransactionMut<'_>,
    index: u32,
    chunk: &str,
) -> (r: bool) {
    let s = text.get_string(txn);
    if (index as usize) <= s.len() && s.is_char_boundary(index as usize) {
        text.insert(txn, index, chunk);
        true
    } else {
        false
    }
}

/// Relies on `yrs::Text::remove_range`: tombstones `len` units starting at
/// byte offset `index`. The bounds are checked against the current content
/// first, so the engine's out-of-bounds panic cannot be reached; the result
/// says whether the removal was applied. The same guard note as
/// [`yrs_text_insert`] applies.
#[verifier::external_body]
pub(crate) fn yrs_text_remove_range(
    text: &yrs::TextRef,
    txn: &mut yrs::TransactionMut<'_>,
    index: u32,
    len: u32,
) -> (r: bool) {
    let s = text.get_string(txn);
    let end = index as usize + len as usize;
    if end <= s.len() && s.is_char_boundary(index as usize) && s.is_char_boundary(end) {
        text.remove_range(txn, index, len);
        true
    } else {
        false
    }
}

/// Relies on `yrs::IndexedSequence::sticky_index`: anchors a position in
/// the text, returning nothing when the index lies beyond the sequence.
#[verifier::external_body]
pub(crate) fn yrs_text_sticky_index(
    text: &yrs::TextRef,
    txn: &mut yrs::TransactionMut<'_>,
    index: u32,
    assoc: Assoc,
) -> (r: Option<YrsStickyIndex>) {
    let a = match assoc {
        Assoc::After => yrs::Assoc::After,
        Assoc::Before => yrs::Assoc::Before,
    };
    yrs::IndexedSequence::sticky_index(text, txn, index, a)
}

/// Relies on `yrs::StickyIndex::get_offset`: maps the anchor back to a
/// numeric offset in the transaction's current view, returning nothing when
/// neither the anchor nor a neighbour survives.
#[verifier::external_body]
pub(crate) fn yrs_sticky_get_offset(
    si: &YrsStickyIndex,
    txn: &yrs::TransactionMut<'_>,
) -> (r: Option<u32>) {
    si.get_offset(txn).map(|o| o.index)
}

/// Relies on `yrs::StickyIndex`'s `Assoc` field: which side of the anchored
/// element the index sticks to, mapped variant by variant.
#[verifier::external_body]
pub(crate) fn yrs_sticky_assoc(si: &YrsStickyIndex) -> (r: Assoc) {
    match si.assoc {
        yrs::Assoc::After => Assoc::After,
        yrs::Assoc::Before => Assoc::Before,
    }
}

/// Relies on `yrs::updates::encoder::Encode::encode_v1` for
/// `yrs::StickyIndex`: the engine's binary form of the anchor. Every form
/// the encoder writes — a scope tag with an identifier or a name, then the
/// associativity — is one the decoder reads back, so the output always
/// parses.
#[verifier::external_body]
pub(crate) fn yrs_sticky_encode(si: &YrsStickyIndex) -> (r: Vec<u8>)
    ensures
        sticky_parses(r@),
{
    si.encode_v1()
}

/// Whether the given bytes parse as the engine's binary anchor form; a
/// function of the bytes alone.
pub uninterp spec fn sticky_parses(bytes: Seq<u8>) -> bool;

/// Relies on `yrs::updates::decoder::Decode::decode_v1` for
/// `yrs::StickyIndex`: parses the engine's binary form, failing on
/// malformed input. The same debug-build caveat as [`yrs_update_decode`]
/// applies.
#[verifier::external_body]
pub(crate) fn yrs_sticky_decode(bytes: &[u8]) -> (r: Option<YrsStickyIndex>)
    ensures
        r is Some <==> sticky_parses(bytes@),
{
    YrsStickyIndex::decode_v1(bytes).ok()
}

/// Relies on `serde_json::to_string` with `yrs::StickyIndex`'s `Serialize`
/// implementation: the anchor's structured-text form. The serializer emits
/// exactly the keys and associativity values its deserializer accepts, so
/// whatever text it produces parses.
#[verifier::external_body]
pub(crate) fn yrs_sticky_to_json(si: &YrsStickyIndex) -> (r: Option<String>)
    ensures
        r matches Some(text) ==> sticky_json_parses(text@),
{
    serde_json::to_string(si).ok()
}

/// Whether the given text parses as the anchor's structured-text form; a
/// function of the text alone.
pub uninterp spec fn sticky_json_parses(data: Seq<char>) -> bool;

/// Relies on `serde_json::from_str` with `yrs::StickyIndex`'s `Deserialize`
/// implementation: parses the structured-text form, failing on malformed
/// input. The same debug-build caveat as [`yrs_update_decode`] applies.
#[verifier::external_body]
pub(crate) fn yrs_sticky_from_json(data: &str) -> (r: Option<YrsStickyIndex>)
    ensures
        r is Some <==> sticky_json_parses(data@),
{
    serde_json::from_str::<YrsStickyIndex>(data).ok()
}

/// Relies on `yrs::IdSet::insert` with `yrs::ID::new`: rebuilds an engine
/// id set from plain data.
#[verifier::external_body]
fn idset_from_data(entries: &Vec<(u64, Vec<(u32, u32)>)>) -> (r: yrs::IdSet)
    requires
        entries_clients_fit(entries@),
        entries_ranges_ordered(entries@),
{
    let mut set = yrs::IdSet::new();
    for (c, rs) in entries.iter() {
        for r in rs.iter() {
            set.insert(yrs::ID::new(yrs::block::ClientID::new(*c), r.0), r.1 - r.0);
        }
    }
    set
}

/// Relies on `yrs::undo::UndoManager::with_options` and
/// `yrs::undo::StackItem::new`: an undo manager over the given document
/// with the given capture timeout, its stacks seeded with the given
/// (deletions, insertions) data under the document's guid, tracking
/// transactions with no origin until origins are added. The capture clock
/// is the engine's system clock.
#[verifier::external_body]
pub(crate) fn yrs_undo_new(
    doc: &YrsDoc,
    capture_timeout_millis: u64,
    undo_stack: &Vec<(Vec<(u64, Vec<(u32, u32)>)>, Vec<(u64, Vec<(u32, u32)>)>)>,
    redo_stack: &Vec<(Vec<(u64, Vec<(u32, u32)>)>, Vec<(u64, Vec<(u32, u32)>)>)>,
) -> (r: YrsUndoManager<()>)
    requires
        stack_data_ok(undo_stack@),
        stack_data_ok(redo_stack@),
{
    let mut options = yrs::undo::Options::<()>::default();
    options.capture_timeout_millis = capture_timeout_millis;
    for (d, i) in undo_stack.iter() {
        options.init_undo_stack.push(
            yrs::undo::StackItem::new(doc.guid(), idset_from_data(d), idset_from_data(i)),
        );
    }
    for (d, i) in redo_stack.iter() {
        options.init_redo_stack.push(
            yrs::undo::StackItem::new(doc.guid(), idset_from_data(d), idset_from_data(i)),
        );
    }
    YrsUndoManager::with_options(options)
}

/// Relies on `yrs::undo::UndoManager::expand_scope` for a text root. The
/// first expansion for a document registers observers through the
/// document's write lock and would panic if it is held, so the lock is
/// probed first; the result says whether the scope was expanded.
#[verifier::external_body]
pub(crate) fn yrs_undo_expand_scope_text(
    mgr: &mut YrsUndoManager<()>,
    doc: &YrsDoc,
    scope: &yrs::TextRef,
) -> (r: bool) {
    if doc.try_transact_mut().is_err() {
        return false;
    }
    mgr.expand_scope(doc, scope);
    true
}

/// Relies on `yrs::undo::UndoManager::expand_scope` for an array root,
/// with the same lock probe as [`yrs_undo_expand_scope_text`].
#[verifier::external_body]
pub(crate) fn yrs_undo_expand_scope_array(
    mgr: &mut YrsUndoManager<()>,
    doc: &YrsDoc,
    scope: &yrs::ArrayRef,
) -> (r: bool) {
    if doc.try_transact_mut().is_err() {
        return false;
    }
    mgr.expand_scope(doc, scope);
    true
}

/// Relies on `yrs::undo::UndoManager::expand_scope` for a map root, with
/// the same lock probe as [`yrs_undo_expand_scope_text`].
#[verifier::external_body]
pub(crate) fn yrs_undo_expand_scope_map(
    mgr: &mut YrsUndoManager<()>,
    doc: &YrsDoc,
    scope: &yrs::MapRef,
) -> (r: bool) {
    if doc.try_transact_mut().is_err() {
        return false;
    }
    mgr.expand_scope(doc, scope);
    true
}

/// Relies on `yrs::undo::UndoManager::expand_scope` for an XML fragment
/// root, with the same lock probe as [`yrs_undo_expand_scope_text`].
#[verifier::external_body]
pub(crate) fn yrs_undo_expand_scope_xml(
    mgr: &mut YrsUndoManager<()>,
    doc: &YrsDoc,
    scope: &yrs::XmlFragmentRef,
) -> (r: bool) {
    if doc.try_transact_mut().is_err() {
        return false;
    }
    mgr.expand_scope(doc, scope);
    true
}

/// Relies on `yrs::undo::UndoManager::include_origin`.
#[verifier::external_body]
pub(crate) fn yrs_undo_include_origin(mgr: &mut YrsUndoManager<()>, origin: i128) {
    mgr.include_origin(origin);
}

/// Relies on `yrs::undo::UndoManager::exclude_origin`.
#[verifier::external_body]
pub(crate) fn yrs_undo_exclude_origin(mgr: &mut YrsUndoManager<()>, origin: i128) {
    mgr.exclude_origin(origin);
}

/// Relies on `yrs::undo::UndoManager::can_undo`: whether the undo stack is
/// non-empty.
#[verifier::external_body]
pub(crate) fn yrs_undo_can_undo(mgr: &YrsUndoManager<()>) -> (r: bool) {
    mgr.can_undo()
}

/// Relies on `yrs::undo::UndoManager::can_redo`: whether the redo stack is
/// non-empty.
#[verifier::external_body]
pub(crate) fn yrs_undo_can_redo(mgr: &YrsUndoManager<()>) -> (r: bool) {
    mgr.can_redo()
}

/// Relies on `yrs::undo::UndoManager::undo_blocking`: reverts the most
/// recent undo stack item, returning whether anything changed. The caller
/// must hold no transaction on the tracked document.
#[verifier::external_body]
pub(crate) fn yrs_undo_blocking(mgr: &mut YrsUndoManager<()>) -> (r: bool) {
    mgr.undo_blocking()
}

/// Relies on `yrs::undo::UndoManager::redo_blocking`: reapplies the most
/// recently undone stack item, returning whether anything changed. The
/// caller must hold no transaction on the tracked document.
#[verifier::external_body]
pub(crate) fn yrs_undo_redo_blocking(mgr: &mut YrsUndoManager<()>) -> (r: bool) {
    mgr.redo_blocking()
}

/// Relies on `yrs::undo::UndoManager::clear_all`: empties both stacks.
/// Clearing takes a blocking read transaction on every tracked document
/// and would wait forever if this document's write lock is held, so the
/// lock is probed first; the result says whether the stacks were cleared.
#[verifier::external_body]
pub(crate) fn yrs_undo_clear(mgr: &mut YrsUndoManager<()>, doc: &YrsDoc) -> (r: bool) {
    if doc.try_transact_mut().is_err() {
        return false;
    }
    mgr.clear_all();
    true
}

/// Relies on `yrs::undo::UndoManager::undo_stack`: the recorded undo items,
/// oldest first, each converted to its (deletions, insertions) range data.
/// Range lists inside one `yrs::IdRanges` are sorted and coalesced, as its
/// documentation states; the per-client map is a `BTreeMap`, but no order
/// of clients is assumed here.
#[verifier::external_body]
pub(crate) fn yrs_undo_stack_data(mgr: &YrsUndoManager<()>) -> (r: Vec<
    (Vec<(u64, Vec<(u32, u32)>)>, Vec<(u64, Vec<(u32, u32)>)>),
>) {
    mgr.undo_stack().iter().map(|item| (idset_data(item.deletions()), idset_data(
        item.insertions(),
    ))).collect()
}

/// Relies on `yrs::undo::UndoManager::redo_stack`: as
/// [`yrs_undo_stack_data`], for the redo side.
#[verifier::external_body]
pub(crate) fn yrs_undo_redo_stack_data(mgr: &YrsUndoManager<()>) -> (r: Vec<
    (Vec<(u64, Vec<(u32, u32)>)>, Vec<(u64, Vec<(u32, u32)>)>),
>) {
    mgr.redo_stack().iter().map(|item| (idset_data(item.deletions()), idset_data(
        item.insertions(),
    ))).collect()
}

/// Relies on `yrs::IdSet::iter` and `yrs::ids::IdRanges::ranges`: one
/// engine id set as plain (client, ranges) data.
#[verifier::external_body]
fn idset_data(set: &yrs::IdSet) -> (r: Vec<(u64, Vec<(u32, u32)>)>) {
    set.iter().map(|(c, rs)| (c.get(), rs.iter().map(|r| (r.start, r.end)).collect())).collect()
}

} // verus!
