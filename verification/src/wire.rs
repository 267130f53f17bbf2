//! The versioned binary form of state vectors, delete sets and snapshots.
//!
//! Every count, client, clock and length is a variable-length integer (see
//! [`crate::codec`]). A state vector is its entry count followed by
//! `client, clock` pairs in ascending client order; a delete set is its
//! client count followed, per client, by `client, range count` and
//! `start, length` pairs; a snapshot is a state vector followed by a delete
//! set. The decoders are strict: they accept exactly the canonical bytes
//! the encoders produce, and reject trailing input.

use vstd::prelude::*;
use crate::codec::{lemma_varint_roundtrip, varint_read, varint_write, vdec, venc};
use crate::errors::Error;
use crate::state_vector::{sv_wf, SvModel, StateVector};

verus! {

/// The encoding of one state-vector entry.
pub open spec fn sv_entry_enc(p: (u64, u32)) -> Seq<u8> {
    venc(p.0 as nat) + venc(p.1 as nat)
}

/// The encoding of a list of state-vector entries.
pub open spec fn sv_entries_enc(es: SvModel) -> Seq<u8>
    decreases es.len(),
{
    if es.len() == 0 {
        Seq::empty()
    } else {
        sv_entry_enc(es[0]) + sv_entries_enc(es.skip(1))
    }
}

/// The encoding of a whole state vector.
pub open spec fn sv_enc(es: SvModel) -> Seq<u8> {
    venc(es.len() as nat) + sv_entries_enc(es)
}

/// Strict decode of `k` state-vector entries with clients no smaller than
/// `lo`: the entries and the bytes consumed.
pub open spec fn sv_entries_dec(s: Seq<u8>, k: nat, lo: int) -> Option<(SvModel, int)>
    decreases k,
{
    if k == 0 {
        Some((Seq::empty(), 0))
    } else {
        match vdec(s) {
            None => None,
            Some((cl, n1)) => if cl < lo {
                None
            } else {
                match vdec(s.skip(n1)) {
                    None => None,
                    Some((ck, n2)) => if ck < 1 || ck > u32::MAX {
                        None
                    } else {
                        match sv_entries_dec(s.skip(n1 + n2), (k - 1) as nat, cl as int + 1) {
                            None => None,
                            Some((es, m)) => Some(
                                (seq![(cl as u64, ck as u32)] + es, n1 + n2 + m),
                            ),
                        }
                    },
                }
            },
        }
    }
}

/// Strict decode of a state vector at the front of `s`: the entries and
/// the bytes consumed.
pub open spec fn sv_dec_at(s: Seq<u8>) -> Option<(SvModel, int)> {
    match vdec(s) {
        None => None,
        Some((k, n)) => match sv_entries_dec(s.skip(n), k, 0) {
            None => None,
            Some((es, m)) => Some((es, n + m)),
        },
    }
}

/// Strict decode of a whole state vector; the input must be consumed
/// exactly.
pub open spec fn sv_dec(s: Seq<u8>) -> Option<SvModel> {
    match sv_dec_at(s) {
        None => None,
        Some((es, m)) => if m == s.len() {
            Some(es)
        } else {
            None
        },
    }
}

/// Appending an entry to a list appends its encoding.
pub proof fn lemma_sv_entries_enc_push(es: SvModel, x: (u64, u32))
    ensures
        sv_entries_enc(es.push(x)) == sv_entries_enc(es) + sv_entry_enc(x),
    decreases es.len(),
{
    if es.len() == 0 {
        assert(es.push(x)[0] == x);
        assert(es.push(x).skip(1) =~= Seq::<(u64, u32)>::empty());
        assert(sv_entries_enc(es.push(x)) == sv_entry_enc(x) + sv_entries_enc(
            Seq::<(u64, u32)>::empty(),
        ));
        assert(sv_entry_enc(x) + Seq::<u8>::empty() =~= sv_entry_enc(x));
        assert(Seq::<u8>::empty() + sv_entry_enc(x) =~= sv_entry_enc(x));
    } else {
        assert(es.push(x).skip(1) =~= es.skip(1).push(x));
        lemma_sv_entries_enc_push(es.skip(1), x);
        assert(es.push(x)[0] == es[0]);
        assert(sv_entries_enc(es.push(x)) == sv_entry_enc(es[0]) + sv_entries_enc(
            es.skip(1).push(x),
        ));
        assert(sv_entry_enc(es[0]) + (sv_entries_enc(es.skip(1)) + sv_entry_enc(x)) =~= (
        sv_entry_enc(es[0]) + sv_entries_enc(es.skip(1))) + sv_entry_enc(x));
    }
}

/// Decoding inverts encoding for entry lists, whatever follows them.
pub proof fn lemma_sv_entries_roundtrip(es: SvModel, rest: Seq<u8>, lo: int)
    requires
        forall|i: int| 0 <= i < es.len() ==> (#[trigger] es[i]).1 >= 1,
        forall|i: int| 0 <= i < es.len() - 1 ==> (#[trigger] es[i]).0 < es[i + 1].0,
        es.len() > 0 ==> lo <= es[0].0,
    ensures
        sv_entries_dec(sv_entries_enc(es) + rest, es.len() as nat, lo) == Some(
            (es, sv_entries_enc(es).len() as int),
        ),
    decreases es.len(),
{
    if es.len() == 0 {
        assert(sv_entries_dec(sv_entries_enc(es) + rest, 0, lo) == Some(
            (Seq::<(u64, u32)>::empty(), 0int),
        ));
        assert(es =~= Seq::<(u64, u32)>::empty());
    } else {
        let (cl, ck) = es[0];
        let s = sv_entries_enc(es) + rest;
        let tail_enc = sv_entries_enc(es.skip(1));
        assert(s =~= venc(cl as nat) + (venc(ck as nat) + (tail_enc + rest)));
        lemma_varint_roundtrip(cl as nat, venc(ck as nat) + (tail_enc + rest));
        let n1 = venc(cl as nat).len() as int;
        assert(vdec(s) == Some((cl as nat, n1)));
        assert(s.skip(n1) =~= venc(ck as nat) + (tail_enc + rest));
        lemma_varint_roundtrip(ck as nat, tail_enc + rest);
        let n2 = venc(ck as nat).len() as int;
        assert(vdec(s.skip(n1)) == Some((ck as nat, n2)));
        assert(s.skip(n1 + n2) =~= tail_enc + rest);
        lemma_sv_entries_roundtrip(es.skip(1), rest, cl + 1);
        assert(seq![(cl, ck)] + es.skip(1) =~= es);
        assert(sv_entries_enc(es).len() == n1 + n2 + tail_enc.len());
    }
}

/// Decoding inverts encoding for state vectors, whatever follows the
/// encoded bytes.
pub proof fn lemma_sv_roundtrip_at(es: SvModel, rest: Seq<u8>)
    requires
        sv_wf(es),
        es.len() <= u64::MAX,
    ensures
        sv_dec_at(sv_enc(es) + rest) == Some((es, sv_enc(es).len() as int)),
{
    let s = sv_enc(es) + rest;
    assert(s =~= venc(es.len() as nat) + (sv_entries_enc(es) + rest));
    lemma_varint_roundtrip(es.len() as nat, sv_entries_enc(es) + rest);
    let n = venc(es.len() as nat).len() as int;
    assert(vdec(s) == Some((es.len() as nat, n)));
    assert(s.skip(n) =~= sv_entries_enc(es) + rest);
    lemma_sv_entries_roundtrip(es, rest, 0);
    assert(sv_entries_dec(s.skip(n), es.len() as nat, 0) == Some(
        (es, sv_entries_enc(es).len() as int),
    ));
}

/// Decoding inverts encoding for whole state vectors.
pub proof fn lemma_sv_roundtrip(es: SvModel)
    requires
        sv_wf(es),
        es.len() <= u64::MAX,
    ensures
        sv_dec(sv_enc(es)) == Some(es),
{
    lemma_sv_roundtrip_at(es, Seq::empty());
    assert(sv_enc(es) + Seq::<u8>::empty() =~= sv_enc(es));
}

impl StateVector {
    /// The canonical binary form of this state vector.
    pub fn encode(&self) -> (r: Vec<u8>)
        ensures
            r@ == sv_enc(self@),
    {
        let mut out: Vec<u8> = Vec::new();
        let n = self.client_count();
        varint_write(&mut out, n as u64);
        let mut i: usize = 0;
        while i < n
            invariant
                n == self@.len(),
                i <= n,
                out@ == venc(n as nat) + sv_entries_enc(self@.take(i as int)),
            decreases n - i,
        {
            let (cl, ck) = self.entry_at(i);
            varint_write(&mut out, cl);
            varint_write(&mut out, ck as u64);
            proof {
                lemma_sv_entries_enc_push(self@.take(i as int), self@[i as int]);
                assert(self@.take(i as int).push(self@[i as int]) =~= self@.take(i as int + 1));
                assert(out@ =~= venc(n as nat) + sv_entries_enc(self@.take(i as int + 1)));
            }
            i = i + 1;
        }
        proof {
            assert(self@.take(n as int) =~= self@);
        }
        out
    }

    /// Decodes one state vector starting at `pos0`, returning it and the
    /// position just past its bytes.
    pub fn decode_at(s: &[u8], pos0: usize) -> (r: Result<(StateVector, usize), Error>)
        requires
            pos0 <= s@.len(),
        ensures
            match r {
                Ok((sv, end)) => {
                    &&& sv_dec_at(s@.skip(pos0 as int)) == Some((sv@, end - pos0))
                    &&& sv_wf(sv@)
                    &&& pos0 <= end <= s@.len()
                },
                Err(e) => sv_dec_at(s@.skip(pos0 as int)) is None && e matches Error::Decode {
                    ..
                },
            },
    {
        let ghost whole = s@.skip(pos0 as int);
        let slen: usize = s.len();
        let Some((k, n0)) = varint_read(s, pos0) else {
            return Err(Error::Decode { offset: pos0 });
        };
        proof {
            assert(whole.skip(n0 as int) =~= s@.skip(pos0 + n0));
        }
        let mut sv = StateVector::new();
        let mut pos: usize = pos0 + n0;
        let mut j: u64 = 0;
        let mut lo: u128 = 0;
        proof {
            let d0 = sv_entries_dec(s@.skip(pos0 + n0), k as nat, 0);
            if d0 is Some {
                assert(Seq::<(u64, u32)>::empty() + d0.unwrap().0 =~= d0.unwrap().0);
            }
        }
        while j < k
            invariant
                s@.len() == slen,
                pos0 + n0 <= pos <= s@.len(),
                j <= k,
                whole == s@.skip(pos0 as int),
                vdec(whole) == Some((k as nat, n0 as int)),
                sv_wf(sv@),
                sv@.len() > 0 ==> lo == sv@[sv@.len() - 1].0 + 1,
                sv@.len() == 0 ==> lo == 0,
                lo <= u64::MAX + 1,
                sv_entries_dec(s@.skip(pos0 + n0), k as nat, 0) == sv_combine(
                    sv@,
                    pos - (pos0 + n0),
                    sv_entries_dec(s@.skip(pos as int), (k - j) as nat, lo as int),
                ),
            decreases k - j,
        {
            let ghost pre = sv@;
            proof {
                assert(whole.skip(n0 as int) =~= s@.skip(pos0 + n0));
            }
            let Some((cl, n1)) = varint_read(s, pos) else {
                proof {
                    assert(sv_entries_dec(s@.skip(pos as int), (k - j) as nat, lo as int)
                        is None);
                }
                return Err(Error::Decode { offset: pos });
            };
            if (cl as u128) < lo {
                proof {
                    assert(sv_entries_dec(s@.skip(pos as int), (k - j) as nat, lo as int)
                        is None);
                }
                return Err(Error::Decode { offset: pos });
            }
            let Some((ck, n2)) = varint_read(s, pos + n1) else {
                proof {
                    assert(s@.skip(pos as int).skip(n1 as int) =~= s@.skip(pos + n1));
                    assert(sv_entries_dec(s@.skip(pos as int), (k - j) as nat, lo as int)
                        is None);
                }
                return Err(Error::Decode { offset: pos + n1 });
            };
            proof {
                assert(s@.skip(pos as int).skip(n1 as int) =~= s@.skip(pos + n1));
            }
            if ck < 1 || ck > u32::MAX as u64 {
                proof {
                    assert(sv_entries_dec(s@.skip(pos as int), (k - j) as nat, lo as int)
                        is None);
                }
                return Err(Error::Decode { offset: pos + n1 });
            }
            sv.push_entry(cl, ck as u32);
            proof {
                assert(s@.skip(pos as int).skip(n1 + n2) =~= s@.skip(pos + n1 + n2));
                assert(sv@ =~= pre.push((cl, ck as u32)));
                let base = pos0 + n0;
                let inner = sv_entries_dec(s@.skip(pos + n1 + n2), (k - j - 1) as nat, cl + 1);
                assert(sv_entries_dec(s@.skip(pos as int), (k - j) as nat, lo as int)
                    == sv_combine(seq![(cl, ck as u32)], n1 + n2, inner));
                assert(sv_combine(pre, pos - base, sv_combine(seq![(cl, ck as u32)], n1 + n2, inner))
                    == sv_combine(sv@, pos + n1 + n2 - base, inner)) by {
                    if inner is Some {
                        let (es2, m2) = inner.unwrap();
                        assert(pre + (seq![(cl, ck as u32)] + es2) =~= sv@ + es2);
                    }
                }
            }
            pos = pos + n1 + n2;
            lo = cl as u128 + 1;
            j = j + 1;
        }
        proof {
            assert(sv_entries_dec(s@.skip(pos as int), 0, lo as int) == Some(
                (Seq::<(u64, u32)>::empty(), 0int),
            ));
            assert(sv@ + Seq::<(u64, u32)>::empty() =~= sv@);
        }
        Ok((sv, pos))
    }

    /// Decodes the canonical binary form; any deviation from it, trailing
    /// bytes included, is a decode error carrying the offset of the first
    /// unusable byte.
    pub fn decode(s: &[u8]) -> (r: Result<StateVector, Error>)
        ensures
            match r {
                Ok(sv) => sv_dec(s@) == Some(sv@) && sv_wf(sv@),
                Err(e) => sv_dec(s@) is None && e matches Error::Decode { .. },
            },
    {
        proof {
            assert(s@.skip(0) =~= s@);
        }
        match StateVector::decode_at(s, 0) {
            Err(e) => Err(e),
            Ok((sv, end)) => {
                if end == s.len() {
                    Ok(sv)
                } else {
                    Err(Error::Decode { offset: end })
                }
            },
        }
    }
}

/// Prepends already-decoded entries and already-consumed bytes to a partial
/// decode result.
pub open spec fn sv_combine(prefix: SvModel, off: int, o: Option<(SvModel, int)>) -> Option<
    (SvModel, int),
> {
    match o {
        None => None,
        Some((es, m)) => Some((prefix + es, off + m)),
    }
}

} // verus!
// === Delete sets ===

use crate::delete_set::{ds_wf, DeleteSet, DsModel};
use crate::ranges::rl_wf;

verus! {

/// The encoding of one clock range: its start and its length.
pub open spec fn range_enc(r: (u32, u32)) -> Seq<u8> {
    venc(r.0 as nat) + venc((r.1 - r.0) as nat)
}

/// The encoding of a list of clock ranges.
pub open spec fn ranges_enc(rs: Seq<(u32, u32)>) -> Seq<u8>
    decreases rs.len(),
{
    if rs.len() == 0 {
        Seq::empty()
    } else {
        range_enc(rs[0]) + ranges_enc(rs.skip(1))
    }
}

/// The encoding of one delete-set entry: client, range count, ranges.
pub open spec fn ds_entry_enc(e: (u64, Seq<(u32, u32)>)) -> Seq<u8> {
    venc(e.0 as nat) + venc(e.1.len() as nat) + ranges_enc(e.1)
}

/// The encoding of a list of delete-set entries.
pub open spec fn ds_entries_enc(es: DsModel) -> Seq<u8>
    decreases es.len(),
{
    if es.len() == 0 {
        Seq::empty()
    } else {
        ds_entry_enc(es[0]) + ds_entries_enc(es.skip(1))
    }
}

/// The encoding of a whole delete set.
pub open spec fn ds_enc(es: DsModel) -> Seq<u8> {
    venc(es.len() as nat) + ds_entries_enc(es)
}

/// Strict decode of `k` clock ranges starting no earlier than `lo`: the
/// ranges and the bytes consumed.
pub open spec fn ranges_dec(s: Seq<u8>, k: nat, lo: int) -> Option<(Seq<(u32, u32)>, int)>
    decreases k,
{
    if k == 0 {
        Some((Seq::empty(), 0))
    } else {
        match vdec(s) {
            None => None,
            Some((st, n1)) => if st < lo || st > u32::MAX {
                None
            } else {
                match vdec(s.skip(n1)) {
                    None => None,
                    Some((l, n2)) => if l < 1 || st + l > u32::MAX {
                        None
                    } else {
                        match ranges_dec(
                            s.skip(n1 + n2),
                            (k - 1) as nat,
                            st as int + l as int + 1,
                        ) {
                            None => None,
                            Some((rs, m)) => Some(
                                (seq![(st as u32, (st + l) as u32)] + rs, n1 + n2 + m),
                            ),
                        }
                    },
                }
            },
        }
    }
}

/// Strict decode of `k` delete-set entries with clients no smaller than
/// `lo`: the entries and the bytes consumed.
pub open spec fn ds_entries_dec(s: Seq<u8>, k: nat, lo: int) -> Option<(DsModel, int)>
    decreases k,
{
    if k == 0 {
        Some((Seq::empty(), 0))
    } else {
        match vdec(s) {
            None => None,
            Some((cl, n1)) => if cl < lo {
                None
            } else {
                match vdec(s.skip(n1)) {
                    None => None,
                    Some((cnt, n2)) => if cnt < 1 {
                        None
                    } else {
                        match ranges_dec(s.skip(n1 + n2), cnt, 0) {
                            None => None,
                            Some((rs, m)) => match ds_entries_dec(
                                s.skip(n1 + n2 + m),
                                (k - 1) as nat,
                                cl as int + 1,
                            ) {
                                None => None,
                                Some((es, m2)) => Some(
                                    (seq![(cl as u64, rs)] + es, n1 + n2 + m + m2),
                                ),
                            },
                        }
                    },
                }
            },
        }
    }
}

/// Strict decode of a delete set at the front of `s`: the entries and the
/// bytes consumed.
pub open spec fn ds_dec_at(s: Seq<u8>) -> Option<(DsModel, int)> {
    match vdec(s) {
        None => None,
        Some((k, n)) => match ds_entries_dec(s.skip(n), k, 0) {
            None => None,
            Some((es, m)) => Some((es, n + m)),
        },
    }
}

/// Strict decode of a whole delete set; the input must be consumed
/// exactly.
pub open spec fn ds_dec(s: Seq<u8>) -> Option<DsModel> {
    match ds_dec_at(s) {
        None => None,
        Some((es, m)) => if m == s.len() {
            Some(es)
        } else {
            None
        },
    }
}

/// Appending a range to a list appends its encoding.
pub proof fn lemma_ranges_enc_push(rs: Seq<(u32, u32)>, x: (u32, u32))
    ensures
        ranges_enc(rs.push(x)) == ranges_enc(rs) + range_enc(x),
    decreases rs.len(),
{
    if rs.len() == 0 {
        assert(rs.push(x)[0] == x);
        assert(rs.push(x).skip(1) =~= Seq::<(u32, u32)>::empty());
        assert(ranges_enc(rs.push(x)) == range_enc(x) + ranges_enc(Seq::<(u32, u32)>::empty()));
        assert(range_enc(x) + Seq::<u8>::empty() =~= range_enc(x));
        assert(Seq::<u8>::empty() + range_enc(x) =~= range_enc(x));
    } else {
        assert(rs.push(x).skip(1) =~= rs.skip(1).push(x));
        lemma_ranges_enc_push(rs.skip(1), x);
        assert(rs.push(x)[0] == rs[0]);
        assert(ranges_enc(rs.push(x)) == range_enc(rs[0]) + ranges_enc(rs.skip(1).push(x)));
        assert(range_enc(rs[0]) + (ranges_enc(rs.skip(1)) + range_enc(x)) =~= (range_enc(rs[0])
            + ranges_enc(rs.skip(1))) + range_enc(x));
    }
}

/// Appending an entry to a list appends its encoding.
pub proof fn lemma_ds_entries_enc_push(es: DsModel, x: (u64, Seq<(u32, u32)>))
    ensures
        ds_entries_enc(es.push(x)) == ds_entries_enc(es) + ds_entry_enc(x),
    decreases es.len(),
{
    if es.len() == 0 {
        assert(es.push(x)[0] == x);
        assert(es.push(x).skip(1) =~= Seq::<(u64, Seq<(u32, u32)>)>::empty());
        assert(ds_entries_enc(es.push(x)) == ds_entry_enc(x) + ds_entries_enc(
            Seq::<(u64, Seq<(u32, u32)>)>::empty(),
        ));
        assert(ds_entry_enc(x) + Seq::<u8>::empty() =~= ds_entry_enc(x));
        assert(Seq::<u8>::empty() + ds_entry_enc(x) =~= ds_entry_enc(x));
    } else {
        assert(es.push(x).skip(1) =~= es.skip(1).push(x));
        lemma_ds_entries_enc_push(es.skip(1), x);
        assert(es.push(x)[0] == es[0]);
        assert(ds_entries_enc(es.push(x)) == ds_entry_enc(es[0]) + ds_entries_enc(
            es.skip(1).push(x),
        ));
        assert(ds_entry_enc(es[0]) + (ds_entries_enc(es.skip(1)) + ds_entry_enc(x)) =~= (
        ds_entry_enc(es[0]) + ds_entries_enc(es.skip(1))) + ds_entry_enc(x));
    }
}

/// Decoding inverts encoding for range lists, whatever follows them.
pub proof fn lemma_ranges_roundtrip(rs: Seq<(u32, u32)>, rest: Seq<u8>, lo: int)
    requires
        rl_wf(rs),
        rs.len() > 0 ==> lo <= rs[0].0,
        lo >= 0,
    ensures
        ranges_dec(ranges_enc(rs) + rest, rs.len() as nat, lo) == Some(
            (rs, ranges_enc(rs).len() as int),
        ),
    decreases rs.len(),
{
    if rs.len() == 0 {
        assert(ranges_dec(ranges_enc(rs) + rest, 0, lo) == Some(
            (Seq::<(u32, u32)>::empty(), 0int),
        ));
        assert(rs =~= Seq::<(u32, u32)>::empty());
    } else {
        let (st, en) = rs[0];
        let l = en - st;
        let s = ranges_enc(rs) + rest;
        let tail_enc = ranges_enc(rs.skip(1));
        assert(s =~= venc(st as nat) + (venc(l as nat) + (tail_enc + rest)));
        lemma_varint_roundtrip(st as nat, venc(l as nat) + (tail_enc + rest));
        let n1 = venc(st as nat).len() as int;
        assert(vdec(s) == Some((st as nat, n1)));
        assert(s.skip(n1) =~= venc(l as nat) + (tail_enc + rest));
        lemma_varint_roundtrip(l as nat, tail_enc + rest);
        let n2 = venc(l as nat).len() as int;
        assert(vdec(s.skip(n1)) == Some((l as nat, n2)));
        assert(s.skip(n1 + n2) =~= tail_enc + rest);
        assert(rs.skip(1).len() > 0 ==> st as int + l as int + 1 <= rs.skip(1)[0].0) by {
            if rs.len() > 1 {
                assert(rs[0].1 < rs[1].0);
                assert(rs.skip(1)[0] == rs[1]);
            }
        }
        lemma_ranges_roundtrip(rs.skip(1), rest, st as int + l as int + 1);
        assert(seq![(st, (st as int + l as int) as u32)] + rs.skip(1) =~= rs);
        assert(ranges_enc(rs).len() == n1 + n2 + tail_enc.len());
    }
}

/// One decoding step: a well-formed head entry decodes to itself and hands
/// the tail on.
#[verifier::rlimit(100)]
proof fn lemma_ds_entries_dec_step(cl: u64, rs: Seq<(u32, u32)>, tail: Seq<u8>, k: nat, lo: int)
    requires
        rl_wf(rs),
        1 <= rs.len() <= u64::MAX,
        k >= 1,
        lo <= cl,
    ensures
        ds_entries_dec(ds_entry_enc((cl, rs)) + tail, k, lo) == (match ds_entries_dec(
            tail,
            (k - 1) as nat,
            cl as int + 1,
        ) {
            None => None,
            Some((es, m2)) => Some(
                (seq![(cl, rs)] + es, ds_entry_enc((cl, rs)).len() + m2),
            ),
        }),
{
    let s = ds_entry_enc((cl, rs)) + tail;
    let cnt = rs.len() as nat;
    assert(s =~= venc(cl as nat) + (venc(cnt) + (ranges_enc(rs) + tail)));
    lemma_varint_roundtrip(cl as nat, venc(cnt) + (ranges_enc(rs) + tail));
    let n1 = venc(cl as nat).len() as int;
    assert(vdec(s) == Some((cl as nat, n1)));
    assert(s.skip(n1) =~= venc(cnt) + (ranges_enc(rs) + tail));
    lemma_varint_roundtrip(cnt, ranges_enc(rs) + tail);
    let n2 = venc(cnt).len() as int;
    assert(vdec(s.skip(n1)) == Some((cnt, n2)));
    assert(s.skip(n1 + n2) =~= ranges_enc(rs) + tail);
    lemma_ranges_roundtrip(rs, tail, 0);
    let m = ranges_enc(rs).len() as int;
    assert(s.skip(n1 + n2 + m) =~= tail) by {
        assert(s.skip(n1 + n2) =~= ranges_enc(rs) + tail);
        assert(s.skip(n1 + n2).skip(m) =~= s.skip(n1 + n2 + m));
        assert((ranges_enc(rs) + tail).skip(m) =~= tail);
    }
    assert(ds_entry_enc((cl, rs)).len() == n1 + n2 + m);
}

/// Decoding inverts encoding for delete-set entry lists, whatever follows
/// them.
pub proof fn lemma_ds_entries_roundtrip(es: DsModel, rest: Seq<u8>, lo: int)
    requires
        ds_wf(es),
        es.len() > 0 ==> lo <= es[0].0,
        forall|i: int| 0 <= i < es.len() ==> (#[trigger] es[i]).1.len() <= u64::MAX,
    ensures
        ds_entries_dec(ds_entries_enc(es) + rest, es.len() as nat, lo) == Some(
            (es, ds_entries_enc(es).len() as int),
        ),
    decreases es.len(),
{
    if es.len() == 0 {
        assert(ds_entries_dec(ds_entries_enc(es) + rest, 0, lo) == Some(
            (Seq::<(u64, Seq<(u32, u32)>)>::empty(), 0int),
        ));
        assert(es =~= Seq::<(u64, Seq<(u32, u32)>)>::empty());
    } else {
        let (cl, rs) = es[0];
        let tail_enc = ds_entries_enc(es.skip(1));
        assert(ds_entries_enc(es) + rest =~= ds_entry_enc((cl, rs)) + (tail_enc + rest));
        lemma_ds_entries_dec_step(cl, rs, tail_enc + rest, es.len() as nat, lo);
        lemma_ds_entries_roundtrip(es.skip(1), rest, cl as int + 1);
        assert(seq![(cl, rs)] + es.skip(1) =~= es);
    }
}

/// Decoding inverts encoding for delete sets, whatever follows the encoded
/// bytes.
#[verifier::rlimit(100)]
pub proof fn lemma_ds_roundtrip_at(es: DsModel, rest: Seq<u8>)
    requires
        ds_wf(es),
        es.len() <= u64::MAX,
        forall|i: int| 0 <= i < es.len() ==> (#[trigger] es[i]).1.len() <= u64::MAX,
    ensures
        ds_dec_at(ds_enc(es) + rest) == Some((es, ds_enc(es).len() as int)),
{
    let s = ds_enc(es) + rest;
    assert(s =~= venc(es.len() as nat) + (ds_entries_enc(es) + rest));
    lemma_varint_roundtrip(es.len() as nat, ds_entries_enc(es) + rest);
    let n = venc(es.len() as nat).len() as int;
    assert(vdec(s) == Some((es.len() as nat, n)));
    assert(s.skip(n) =~= ds_entries_enc(es) + rest);
    lemma_ds_entries_roundtrip(es, rest, 0);
}

/// Decoding inverts encoding for whole delete sets.
pub proof fn lemma_ds_roundtrip(es: DsModel)
    requires
        ds_wf(es),
        es.len() <= u64::MAX,
        forall|i: int| 0 <= i < es.len() ==> (#[trigger] es[i]).1.len() <= u64::MAX,
    ensures
        ds_dec(ds_enc(es)) == Some(es),
{
    lemma_ds_roundtrip_at(es, Seq::empty());
    assert(ds_enc(es) + Seq::<u8>::empty() =~= ds_enc(es));
}

/// Prepends already-decoded ranges and already-consumed bytes to a partial
/// decode result.
pub open spec fn r_combine(
    prefix: Seq<(u32, u32)>,
    off: int,
    o: Option<(Seq<(u32, u32)>, int)>,
) -> Option<(Seq<(u32, u32)>, int)> {
    match o {
        None => None,
        Some((rs, m)) => Some((prefix + rs, off + m)),
    }
}

/// Prepends already-decoded entries and already-consumed bytes to a partial
/// decode result.
pub open spec fn ds_combine(prefix: DsModel, off: int, o: Option<(DsModel, int)>) -> Option<
    (DsModel, int),
> {
    match o {
        None => None,
        Some((es, m)) => Some((prefix + es, off + m)),
    }
}

} // verus!

verus! {

/// One encoding step: the bytes of the first `i` entries followed by the
/// parts of entry `i` are the bytes of the first `i + 1` entries.
proof fn lemma_ds_enc_step(es: DsModel, i: int)
    requires
        0 <= i < es.len(),
    ensures
        ds_entries_enc(es.take(i)) + venc(es[i].0 as nat) + venc(es[i].1.len() as nat)
            + ranges_enc(es[i].1) =~= ds_entries_enc(es.take(i + 1)),
{
    lemma_ds_entries_enc_push(es.take(i), es[i]);
    assert(es.take(i).push(es[i]) =~= es.take(i + 1));
}

impl DeleteSet {
    /// Appends the encodings of the ranges of entry `i` to `out`.
    #[verifier::rlimit(100)]
    fn encode_ranges(&self, i: usize, out: &mut Vec<u8>)
        requires
            ds_wf(self@),
            i < self@.len(),
        ensures
            final(out)@ == old(out)@ + ranges_enc(self@[i as int].1),
    {
        let m = self.range_count(i);
        let mut kk: usize = 0;
        proof {
            assert(out@ =~= old(out)@ + ranges_enc(self@[i as int].1.take(0)));
        }
        #[verifier::rlimit(100)]
        while kk < m
            invariant
                i < self@.len(),
                m == self@[i as int].1.len(),
                kk <= m,
                ds_wf(self@),
                out@ == old(out)@ + ranges_enc(self@[i as int].1.take(kk as int)),
            decreases m - kk,
        {
            let (st, en) = self.range_at(i, kk);
            proof {
                assert(self@[i as int].1[kk as int].0 < self@[i as int].1[kk as int].1);
            }
            varint_write(out, st as u64);
            varint_write(out, (en - st) as u64);
            proof {
                let rsv = self@[i as int].1;
                lemma_ranges_enc_push(rsv.take(kk as int), rsv[kk as int]);
                assert(rsv.take(kk as int).push(rsv[kk as int]) =~= rsv.take(kk as int + 1));
                assert(out@ =~= old(out)@ + ranges_enc(rsv.take(kk as int + 1)));
            }
            kk = kk + 1;
        }
        proof {
            assert(self@[i as int].1.take(m as int) =~= self@[i as int].1);
        }
    }

    /// Appends the encoding of the entry at position `i` to `out`.
    #[verifier::rlimit(100)]
    fn encode_entry(&self, i: usize, out: &mut Vec<u8>)
        requires
            ds_wf(self@),
            i < self@.len(),
        ensures
            final(out)@ == old(out)@ + ds_entry_enc(self@[i as int]),
    {
        let cl = self.client_at(i);
        let m = self.range_count(i);
        varint_write(out, cl);
        varint_write(out, m as u64);
        self.encode_ranges(i, out);
        proof {
            assert(out@ =~= old(out)@ + ds_entry_enc(self@[i as int]));
        }
    }

    /// The canonical binary form of this delete set.
    #[verifier::rlimit(100)]
    pub fn encode(&self) -> (r: Vec<u8>)
        requires
            ds_wf(self@),
        ensures
            r@ == ds_enc(self@),
    {
        let mut out: Vec<u8> = Vec::new();
        let n = self.client_count();
        varint_write(&mut out, n as u64);
        let mut i: usize = 0;
        #[verifier::rlimit(100)]
        while i < n
            invariant
                n == self@.len(),
                i <= n,
                ds_wf(self@),
                out@ == venc(n as nat) + ds_entries_enc(self@.take(i as int)),
            decreases n - i,
        {
            self.encode_entry(i, &mut out);
            proof {
                lemma_ds_entries_enc_push(self@.take(i as int), self@[i as int]);
                assert(self@.take(i as int).push(self@[i as int]) =~= self@.take(i as int + 1));
                assert(out@ =~= venc(n as nat) + ds_entries_enc(self@.take(i as int + 1)));
            }
            i = i + 1;
        }
        proof {
            assert(self@.take(n as int) =~= self@);
        }
        out
    }

    /// Decodes one delete set starting at `pos0`, returning it and the
    /// position just past its bytes.
    #[verifier::rlimit(100)]
    pub fn decode_at(s: &[u8], pos0: usize) -> (r: Result<(DeleteSet, usize), Error>)
        requires
            pos0 <= s@.len(),
        ensures
            match r {
                Ok((ds, end)) => {
                    &&& ds_dec_at(s@.skip(pos0 as int)) == Some((ds@, end - pos0))
                    &&& ds_wf(ds@)
                    &&& pos0 <= end <= s@.len()
                },
                Err(e) => ds_dec_at(s@.skip(pos0 as int)) is None && e matches Error::Decode {
                    ..
                },
            },
    {
        let ghost whole = s@.skip(pos0 as int);
        let slen: usize = s.len();
        let Some((k, n0)) = varint_read(s, pos0) else {
            return Err(Error::Decode { offset: pos0 });
        };
        proof {
            assert(whole.skip(n0 as int) =~= s@.skip(pos0 + n0));
        }
        let mut ds = DeleteSet::new();
        let mut pos: usize = pos0 + n0;
        let mut j: u64 = 0;
        let mut lo: u128 = 0;
        proof {
            let d0 = ds_entries_dec(s@.skip(pos0 + n0), k as nat, 0);
            if d0 is Some {
                assert(Seq::<(u64, Seq<(u32, u32)>)>::empty() + d0.unwrap().0 =~= d0.unwrap().0);
            }
        }
        while j < k
            invariant
                s@.len() == slen,
                pos0 + n0 <= pos <= slen,
                j <= k,
                whole == s@.skip(pos0 as int),
                vdec(whole) == Some((k as nat, n0 as int)),
                ds_wf(ds@),
                ds@.len() > 0 ==> lo == ds@[ds@.len() - 1].0 + 1,
                ds@.len() == 0 ==> lo == 0,
                lo <= u64::MAX + 1,
                ds_entries_dec(s@.skip(pos0 + n0), k as nat, 0) == ds_combine(
                    ds@,
                    pos - (pos0 + n0),
                    ds_entries_dec(s@.skip(pos as int), (k - j) as nat, lo as int),
                ),
            decreases k - j,
        {
            let ghost pre = ds@;
            proof {
                assert(whole.skip(n0 as int) =~= s@.skip(pos0 + n0));
            }
            let Some((cl, n1)) = varint_read(s, pos) else {
                proof {
                    assert(ds_entries_dec(s@.skip(pos as int), (k - j) as nat, lo as int)
                        is None);
                }
                return Err(Error::Decode { offset: pos });
            };
            if (cl as u128) < lo {
                proof {
                    assert(ds_entries_dec(s@.skip(pos as int), (k - j) as nat, lo as int)
                        is None);
                }
                return Err(Error::Decode { offset: pos });
            }
            let Some((cnt, n2)) = varint_read(s, pos + n1) else {
                proof {
                    assert(s@.skip(pos as int).skip(n1 as int) =~= s@.skip(pos + n1));
                    assert(ds_entries_dec(s@.skip(pos as int), (k - j) as nat, lo as int)
                        is None);
                }
                return Err(Error::Decode { offset: pos + n1 });
            };
            proof {
                assert(s@.skip(pos as int).skip(n1 as int) =~= s@.skip(pos + n1));
            }
            if cnt < 1 {
                proof {
                    assert(ds_entries_dec(s@.skip(pos as int), (k - j) as nat, lo as int)
                        is None);
                }
                return Err(Error::Decode { offset: pos + n1 });
            }
            let base2: usize = pos + n1 + n2;
            proof {
                assert(s@.skip(pos as int).skip(n1 + n2) =~= s@.skip(base2 as int));
            }
            let mut rs: Vec<(u32, u32)> = Vec::new();
            let mut jr: u64 = 0;
            let mut lo2: u64 = 0;
            let mut pos2: usize = base2;
            proof {
                let r0 = ranges_dec(s@.skip(base2 as int), cnt as nat, 0);
                if r0 is Some {
                    assert(Seq::<(u32, u32)>::empty() + r0.unwrap().0 =~= r0.unwrap().0);
                }
            }
            #[verifier::rlimit(100)]
            while jr < cnt
                invariant
                    s@.len() == slen,
                    pos0 <= s@.len(),
                    base2 <= pos2 <= slen,
                    jr <= cnt,
                    cnt >= 1,
                    whole == s@.skip(pos0 as int),
                    vdec(whole) == Some((k as nat, n0 as int)),
                    pos0 + n0 <= pos <= slen,
                    j < k,
                    ds_wf(ds@),
                    ds@ == pre,
                    ds@.len() > 0 ==> lo == ds@[ds@.len() - 1].0 + 1,
                    ds@.len() == 0 ==> lo == 0,
                    lo <= u64::MAX + 1,
                    ds_entries_dec(s@.skip(pos0 + n0), k as nat, 0) == ds_combine(
                        ds@,
                        pos - (pos0 + n0),
                        ds_entries_dec(s@.skip(pos as int), (k - j) as nat, lo as int),
                    ),
                    vdec(s@.skip(pos as int)) == Some((cl as nat, n1 as int)),
                    lo <= cl as u128,
                    vdec(s@.skip(pos + n1)) == Some((cnt as nat, n2 as int)),
                    base2 == pos + n1 + n2,
                    rl_wf(rs@),
                    rs@.len() == jr,
                    rs@.len() > 0 ==> lo2 == rs@[rs@.len() - 1].1 + 1,
                    rs@.len() == 0 ==> lo2 == 0,
                    lo2 <= u32::MAX as u64 + 1,
                    ranges_dec(s@.skip(base2 as int), cnt as nat, 0) == r_combine(
                        rs@,
                        pos2 - base2,
                        ranges_dec(s@.skip(pos2 as int), (cnt - jr) as nat, lo2 as int),
                    ),
                decreases cnt - jr,
            {
                let ghost rpre = rs@;
                proof {
                    assert(whole.skip(n0 as int) =~= s@.skip(pos0 + n0));
                    assert(s@.skip(pos as int).skip(n1 as int) =~= s@.skip(pos + n1));
                    assert(s@.skip(pos as int).skip(n1 + n2) =~= s@.skip(base2 as int));
                }
                let Some((st, m1)) = varint_read(s, pos2) else {
                    proof {
                        assert(ranges_dec(s@.skip(pos2 as int), (cnt - jr) as nat, lo2 as int)
                            is None);
                        assert(ds_entries_dec(s@.skip(pos as int), (k - j) as nat, lo as int)
                            is None);
                    }
                    return Err(Error::Decode { offset: pos2 });
                };
                if st < lo2 || st > u32::MAX as u64 {
                    proof {
                        assert(ranges_dec(s@.skip(pos2 as int), (cnt - jr) as nat, lo2 as int)
                            is None);
                        assert(ds_entries_dec(s@.skip(pos as int), (k - j) as nat, lo as int)
                            is None);
                    }
                    return Err(Error::Decode { offset: pos2 });
                }
                let Some((l, m2)) = varint_read(s, pos2 + m1) else {
                    proof {
                        assert(s@.skip(pos2 as int).skip(m1 as int) =~= s@.skip(pos2 + m1));
                        assert(ranges_dec(s@.skip(pos2 as int), (cnt - jr) as nat, lo2 as int)
                            is None);
                        assert(ds_entries_dec(s@.skip(pos as int), (k - j) as nat, lo as int)
                            is None);
                    }
                    return Err(Error::Decode { offset: pos2 + m1 });
                };
                proof {
                    assert(s@.skip(pos2 as int).skip(m1 as int) =~= s@.skip(pos2 + m1));
                }
                if l < 1 || (st as u128) + (l as u128) > u32::MAX as u128 {
                    proof {
                        assert(ranges_dec(s@.skip(pos2 as int), (cnt - jr) as nat, lo2 as int)
                            is None);
                        assert(ds_entries_dec(s@.skip(pos as int), (k - j) as nat, lo as int)
                            is None);
                    }
                    return Err(Error::Decode { offset: pos2 + m1 });
                }
                rs.push((st as u32, (st + l) as u32));
                proof {
                    assert(s@.skip(pos2 as int).skip(m1 + m2) =~= s@.skip(pos2 + m1 + m2));
                    assert(rs@ =~= rpre.push((st as u32, (st + l) as u32)));
                    assert(rl_wf(rs@)) by {
                        assert(forall|q: int| 0 <= q < rpre.len() ==> rs@[q] == rpre[q]);
                        assert(rs@[rs@.len() - 1] == (st as u32, (st + l) as u32));
                    }
                    let inner = ranges_dec(
                        s@.skip(pos2 + m1 + m2),
                        (cnt - jr - 1) as nat,
                        st as int + l as int + 1,
                    );
                    assert(ranges_dec(s@.skip(pos2 as int), (cnt - jr) as nat, lo2 as int)
                        == r_combine(seq![(st as u32, (st + l) as u32)], m1 + m2, inner));
                    assert(r_combine(
                        rpre,
                        pos2 - base2,
                        r_combine(seq![(st as u32, (st + l) as u32)], m1 + m2, inner),
                    ) == r_combine(rs@, pos2 + m1 + m2 - base2, inner)) by {
                        if inner is Some {
                            let (rs2, mm) = inner.unwrap();
                            assert(rpre + (seq![(st as u32, (st + l) as u32)] + rs2) =~= rs@
                                + rs2);
                        }
                    }
                }
                pos2 = pos2 + m1 + m2;
                lo2 = st + l + 1;
                jr = jr + 1;
            }
            proof {
                assert(ranges_dec(s@.skip(pos2 as int), 0, lo2 as int) == Some(
                    (Seq::<(u32, u32)>::empty(), 0int),
                ));
                assert(rs@ + Seq::<(u32, u32)>::empty() =~= rs@);
                assert(ranges_dec(s@.skip(base2 as int), cnt as nat, 0) == Some(
                    (rs@, pos2 - base2),
                ));
            }
            let ghost rsv = rs@;
            ds.push_entry(cl, rs);
            proof {
                assert(s@.skip(pos as int).skip(n1 + n2 + (pos2 - base2)) =~= s@.skip(
                    pos2 as int,
                ));
                assert(ds@ =~= pre.push((cl, rsv)));
                let base = pos0 + n0;
                let inner = ds_entries_dec(s@.skip(pos2 as int), (k - j - 1) as nat, cl as int + 1);
                assert(ds_entries_dec(s@.skip(pos as int), (k - j) as nat, lo as int)
                    == ds_combine(seq![(cl, rsv)], pos2 - pos, inner));
                assert(ds_combine(pre, pos - base, ds_combine(seq![(cl, rsv)], pos2 - pos, inner))
                    == ds_combine(ds@, pos2 - base, inner)) by {
                    if inner is Some {
                        let (es2, mm2) = inner.unwrap();
                        assert(pre + (seq![(cl, rsv)] + es2) =~= ds@ + es2);
                    }
                }
            }
            pos = pos2;
            lo = cl as u128 + 1;
            j = j + 1;
        }
        proof {
            assert(ds_entries_dec(s@.skip(pos as int), 0, lo as int) == Some(
                (Seq::<(u64, Seq<(u32, u32)>)>::empty(), 0int),
            ));
            assert(ds@ + Seq::<(u64, Seq<(u32, u32)>)>::empty() =~= ds@);
        }
        Ok((ds, pos))
    }

    /// Decodes the canonical binary form; any deviation from it, trailing
    /// bytes included, is a decode error carrying the offset of the first
    /// unusable byte.
    pub fn decode(s: &[u8]) -> (r: Result<DeleteSet, Error>)
        ensures
            match r {
                Ok(ds) => ds_dec(s@) == Some(ds@) && ds_wf(ds@),
                Err(e) => ds_dec(s@) is None && e matches Error::Decode { .. },
            },
    {
        proof {
            assert(s@.skip(0) =~= s@);
        }
        match DeleteSet::decode_at(s, 0) {
            Err(e) => Err(e),
            Ok((ds, end)) => {
                if end == s.len() {
                    Ok(ds)
                } else {
                    Err(Error::Decode { offset: end })
                }
            },
        }
    }
}

} // verus!

verus! {

/// Canonical encoding is injective: replicas that produce the same
/// state-vector bytes hold the same causal state. Together with
/// [`lemma_sv_roundtrip`] this makes the encoded state vector a faithful
/// fingerprint of a replica's knowledge.
pub proof fn lemma_sv_enc_injective(a: SvModel, b: SvModel)
    requires
        sv_wf(a),
        sv_wf(b),
        a.len() <= u64::MAX,
        b.len() <= u64::MAX,
        sv_enc(a) == sv_enc(b),
    ensures
        a == b,
{
    lemma_sv_roundtrip(a);
    lemma_sv_roundtrip(b);
}

/// Canonical encoding is injective for delete sets as well.
pub proof fn lemma_ds_enc_injective(a: DsModel, b: DsModel)
    requires
        ds_wf(a),
        ds_wf(b),
        a.len() <= u64::MAX,
        b.len() <= u64::MAX,
        forall|i: int| 0 <= i < a.len() ==> (#[trigger] a[i]).1.len() <= u64::MAX,
        forall|i: int| 0 <= i < b.len() ==> (#[trigger] b[i]).1.len() <= u64::MAX,
        ds_enc(a) == ds_enc(b),
    ensures
        a == b,
{
    lemma_ds_roundtrip(a);
    lemma_ds_roundtrip(b);
}

} // verus!
