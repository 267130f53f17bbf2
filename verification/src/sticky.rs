//! Sticky indices: position anchors that survive concurrent structural
//! edits.
//!
//! An anchor records the identifier of an adjacent element together with an
//! associativity, never a raw offset, so edits elsewhere in the document
//! cannot invalidate it; it resolves back to a numeric offset only against
//! a transaction's current view.

use vstd::prelude::*;
use yrs::StickyIndex as YrsStickyIndex;
use crate::assoc::Assoc;
use crate::doc::{Text, Transaction};
use crate::engine::{
    sticky_json_parses, sticky_parses, yrs_sticky_assoc, yrs_sticky_decode, yrs_sticky_encode,
    yrs_sticky_from_json, yrs_sticky_get_offset, yrs_sticky_to_json, yrs_text_sticky_index,
};
use crate::errors::Error;

verus! {

/// A position anchor: an element identifier plus the side of it the anchor
/// clings to.
pub struct StickyIndex {
    pub(crate) index: YrsStickyIndex,
    pub(crate) assoc: Assoc,
}

impl StickyIndex {
    /// The anchor's associativity.
    pub closed spec fn spec_assoc(&self) -> Assoc {
        self.assoc
    }

    /// The anchor's associativity.
    pub fn get_assoc_value(&self) -> (r: Assoc)
        ensures
            r == self.spec_assoc(),
    {
        self.assoc
    }

    /// The associativity as its numeric tag: zero for after, minus one for
    /// before.
    pub fn get_assoc(&self) -> (r: i8)
        ensures
            r == (match self.spec_assoc() {
                Assoc::After => 0i8,
                Assoc::Before => -1i8,
            }),
    {
        self.assoc.tag()
    }

    /// Maps the anchor back to a numeric offset in the transaction's
    /// current view; fails only when both the anchored element and its
    /// associativity-directed neighbour are gone.
    pub fn get_offset(&self, txn: &Transaction<'_>) -> (r: Result<u32, Error>)
        ensures
            r matches Err(e) ==> e == Error::AnchorUnresolvable,
    {
        match yrs_sticky_get_offset(&self.index, &txn.txn) {
            Some(offset) => Ok(offset),
            None => Err(Error::AnchorUnresolvable),
        }
    }

    /// The engine's binary form of the anchor. The bytes always parse, so
    /// feeding them to [`decode_sticky_index`] is guaranteed to succeed.
    pub fn encode(&self) -> (r: Vec<u8>)
        ensures
            sticky_parses(r@),
    {
        yrs_sticky_encode(&self.index)
    }

    /// The anchor's structured-text form. The text always parses, so
    /// feeding it to [`get_sticky_index_from_json_string`] is guaranteed
    /// to succeed.
    pub fn to_json_string(&self) -> (r: Result<String, Error>)
        ensures
            r matches Ok(text) ==> sticky_json_parses(text@),
            r matches Err(e) ==> e == (Error::Decode { offset: 0 }),
    {
        match yrs_sticky_to_json(&self.index) {
            Some(s) => Ok(s),
            None => Err(Error::Decode { offset: 0 }),
        }
    }
}

impl Text {
    /// Anchors a position in this text; fails when `index` lies beyond the
    /// current content.
    pub fn sticky_index(&self, txn: &mut Transaction<'_>, index: u32, assoc: Assoc) -> (r: Result<
        StickyIndex,
        Error,
    >)
        ensures
            r matches Ok(si) ==> si.spec_assoc() == assoc,
            r matches Err(e) ==> e == Error::OutOfBounds,
    {
        match yrs_text_sticky_index(&self.text, &mut txn.txn, index, assoc) {
            Some(si) => Ok(StickyIndex { index: si, assoc }),
            None => Err(Error::OutOfBounds),
        }
    }
}

/// Parses an anchor from the engine's binary form; fails exactly on input
/// that is not such a form.
pub fn decode_sticky_index(data: &[u8]) -> (r: Result<StickyIndex, Error>)
    ensures
        r is Ok <==> sticky_parses(data@),
        r matches Err(e) ==> e == (Error::Decode { offset: 0 }),
{
    match yrs_sticky_decode(data) {
        Some(si) => {
            let assoc = yrs_sticky_assoc(&si);
            Ok(StickyIndex { index: si, assoc })
        },
        None => Err(Error::Decode { offset: 0 }),
    }
}

/// Parses an anchor from its structured-text form; fails exactly on text
/// that is not such a form.
pub fn get_sticky_index_from_json_string(data: &str) -> (r: Result<StickyIndex, Error>)
    ensures
        r is Ok <==> sticky_json_parses(data@),
        r matches Err(e) ==> e == (Error::Decode { offset: 0 }),
{
    match yrs_sticky_from_json(data) {
        Some(si) => {
            let assoc = yrs_sticky_assoc(&si);
            Ok(StickyIndex { index: si, assoc })
        },
        None => Err(Error::Decode { offset: 0 }),
    }
}

} // verus!
