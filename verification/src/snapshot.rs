//! Snapshots: immutable point-in-time captures of a document's causal and
//! tombstone state.
//!
//! A snapshot pairs a state vector with a delete set and is decoupled from
//! the live document once taken. Its binary form is the state vector's
//! bytes followed by the delete set's bytes.

use vstd::prelude::*;
use crate::delete_set::{ds_wf, DeleteSet, DsModel};
use crate::doc::{Doc, Transaction};
use crate::errors::Error;
use crate::state_vector::{sv_wf, StateVector, SvModel};
use crate::wire::{
    ds_dec_at, ds_enc, lemma_ds_roundtrip_at, lemma_sv_roundtrip_at, sv_dec_at, sv_enc,
};

verus! {

/// The binary form of a snapshot: state vector then delete set.
pub open spec fn snap_enc(sv: SvModel, ds: DsModel) -> Seq<u8> {
    sv_enc(sv) + ds_enc(ds)
}

/// Strict decode of a whole snapshot; the input must be consumed exactly.
pub open spec fn snap_dec(s: Seq<u8>) -> Option<(SvModel, DsModel)> {
    match sv_dec_at(s) {
        None => None,
        Some((sv, m1)) => match ds_dec_at(s.skip(m1)) {
            None => None,
            Some((ds, m2)) => if m1 + m2 == s.len() {
                Some((sv, ds))
            } else {
                None
            },
        },
    }
}

/// Decoding inverts encoding for snapshots.
pub proof fn lemma_snap_roundtrip(sv: SvModel, ds: DsModel)
    requires
        sv_wf(sv),
        ds_wf(ds),
        sv.len() <= u64::MAX,
        ds.len() <= u64::MAX,
        forall|i: int| 0 <= i < ds.len() ==> (#[trigger] ds[i]).1.len() <= u64::MAX,
    ensures
        snap_dec(snap_enc(sv, ds)) == Some((sv, ds)),
{
    let s = snap_enc(sv, ds);
    lemma_sv_roundtrip_at(sv, ds_enc(ds));
    let m1 = sv_enc(sv).len() as int;
    assert(sv_dec_at(s) == Some((sv, m1)));
    assert(s.skip(m1) =~= ds_enc(ds) + Seq::<u8>::empty());
    lemma_ds_roundtrip_at(ds, Seq::empty());
    assert(ds_enc(ds) + Seq::<u8>::empty() =~= ds_enc(ds));
}

/// An immutable pair of causal knowledge and tombstone record, detached
/// from the document it was taken from.
pub struct Snapshot {
    state_vector: StateVector,
    delete_set: DeleteSet,
}

impl View for Snapshot {
    type V = (SvModel, DsModel);

    closed spec fn view(&self) -> (SvModel, DsModel) {
        (self.state_vector@, self.delete_set@)
    }
}

impl Snapshot {
    /// Captures the current causal and tombstone state of `doc`, detached
    /// from the document and normalised into canonical form.
    pub fn from_doc(doc: &Doc, txn: &Transaction<'_>) -> (r: Snapshot)
        ensures
            sv_wf(r@.0),
            ds_wf(r@.1),
    {
        doc.snapshot(txn)
    }

    /// Assembles a snapshot from its two halves.
    pub fn from_parts(state_vector: StateVector, delete_set: DeleteSet) -> (r: Snapshot)
        ensures
            r@ == (state_vector@, delete_set@),
    {
        Snapshot { state_vector, delete_set }
    }

    /// The causal-knowledge half.
    pub fn state_vector(&self) -> (r: &StateVector)
        ensures
            r@ == self@.0,
    {
        &self.state_vector
    }

    /// The tombstone half.
    pub fn delete_set(&self) -> (r: &DeleteSet)
        ensures
            r@ == self@.1,
    {
        &self.delete_set
    }

    /// The canonical binary form of this snapshot.
    pub fn encode(&self) -> (r: Vec<u8>)
        requires
            sv_wf(self@.0),
            ds_wf(self@.1),
        ensures
            r@ == snap_enc(self@.0, self@.1),
    {
        let mut out = self.state_vector.encode();
        let mut ds_bytes = self.delete_set.encode();
        out.append(&mut ds_bytes);
        out
    }

    /// Decodes the canonical binary form; any deviation from it, trailing
    /// bytes included, is a decode error carrying the offset of the first
    /// unusable byte.
    pub fn decode(s: &[u8]) -> (r: Result<Snapshot, Error>)
        ensures
            match r {
                Ok(snap) => snap_dec(s@) == Some(snap@) && sv_wf(snap@.0) && ds_wf(snap@.1),
                Err(e) => snap_dec(s@) is None && e matches Error::Decode { .. },
            },
    {
        proof {
            assert(s@.skip(0) =~= s@);
        }
        let (sv, m1) = match StateVector::decode_at(s, 0) {
            Ok(p) => p,
            Err(e) => {
                return Err(e);
            },
        };
        let (ds, end) = match DeleteSet::decode_at(s, m1) {
            Ok(p) => p,
            Err(e) => {
                return Err(e);
            },
        };
        if end != s.len() {
            return Err(Error::Decode { offset: end });
        }
        Ok(Snapshot { state_vector: sv, delete_set: ds })
    }
}

} // verus!
