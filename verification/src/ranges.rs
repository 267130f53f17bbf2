//! Sorted, coalesced lists of clock ranges: the per-client building block of
//! a delete set.
//!
//! A range `(start, end)` stands for the half-open clock interval
//! `start..end`. A well-formed list keeps non-empty ranges in ascending
//! order with at least one clock of gap between neighbours, so every set of
//! clocks has exactly one representation.

use vstd::prelude::*;

verus! {

/// Does the half-open range `r` contain clock `c`?
pub open spec fn in_range(r: (u32, u32), c: int) -> bool {
    r.0 <= c < r.1
}

/// Does some range in the index window `[lo, hi)` of `rs` contain `c`?
pub open spec fn win_contains(rs: Seq<(u32, u32)>, lo: int, hi: int, c: int) -> bool {
    exists|j: int| lo <= j < hi && j < rs.len() && in_range(rs[j], c)
}

/// Does some range of `rs` contain `c`?
pub open spec fn rl_contains(rs: Seq<(u32, u32)>, c: int) -> bool {
    win_contains(rs, 0, rs.len() as int, c)
}

/// Canonical form: non-empty ranges, ascending, with a gap between
/// neighbours (adjacent ranges are merged).
pub open spec fn rl_wf(rs: Seq<(u32, u32)>) -> bool {
    &&& forall|i: int| 0 <= i < rs.len() ==> (#[trigger] rs[i]).0 < rs[i].1
    &&& forall|i: int| 0 <= i < rs.len() - 1 ==> (#[trigger] rs[i]).1 < rs[i + 1].0
}

/// A window splits at any midpoint.
pub proof fn lemma_win_split(rs: Seq<(u32, u32)>, lo: int, mid: int, hi: int)
    requires
        lo <= mid <= hi,
    ensures
        forall|c: int| #[trigger]
            win_contains(rs, lo, hi, c) <==> win_contains(rs, lo, mid, c) || win_contains(
                rs,
                mid,
                hi,
                c,
            ),
{
    assert forall|c: int|
        win_contains(rs, lo, mid, c) || win_contains(rs, mid, hi, c) implies #[trigger] win_contains(
        rs,
        lo,
        hi,
        c,
    ) by {
        if win_contains(rs, lo, mid, c) {
            let j = choose|j: int| lo <= j < mid && j < rs.len() && in_range(rs[j], c);
            assert(lo <= j < hi && j < rs.len() && in_range(rs[j], c));
        } else {
            let j = choose|j: int| mid <= j < hi && j < rs.len() && in_range(rs[j], c);
            assert(lo <= j < hi && j < rs.len() && in_range(rs[j], c));
        }
    }
}

/// In a well-formed list the ranges are pairwise ordered, not only
/// neighbours.
pub proof fn lemma_rl_wf_ordered(rs: Seq<(u32, u32)>)
    requires
        rl_wf(rs),
    ensures
        forall|i: int, j: int| 0 <= i < j < rs.len() ==> (#[trigger] rs[i]).1 < (#[trigger] rs[j]).0,
{
    assert forall|i: int, j: int| 0 <= i < j < rs.len() implies (#[trigger] rs[i]).1 < (
    #[trigger] rs[j]).0 by {
        lemma_rl_wf_ordered_step(rs, i, j);
    }
}

proof fn lemma_rl_wf_ordered_step(rs: Seq<(u32, u32)>, i: int, j: int)
    requires
        rl_wf(rs),
        0 <= i < j < rs.len(),
    ensures
        rs[i].1 < rs[j].0,
    decreases j - i,
{
    if j == i + 1 {
    } else {
        lemma_rl_wf_ordered_step(rs, i, j - 1);
        assert(rs[j - 1].1 < rs[j].0);
        assert(rs[j - 1].0 < rs[j - 1].1);
    }
}

/// A list split as prefix, one merged range, and suffix covers the clocks of
/// the original list plus those of the merged interval.
proof fn lemma_rl_insert_cover(
    rs: Seq<(u32, u32)>,
    full: Seq<(u32, u32)>,
    i1: int,
    i2: int,
    ns: u32,
    ne: u32,
    start: u32,
    end: u32,
)
    requires
        0 <= i1 <= i2 <= rs.len(),
        full =~= rs.subrange(0, i1) + seq![(ns, ne)] + rs.subrange(i2, rs.len() as int),
        forall|c: int|
            (ns <= c < ne) <==> (start <= c < end) || #[trigger] win_contains(rs, i1, i2, c),
    ensures
        forall|c: int| #[trigger]
            rl_contains(full, c) <==> rl_contains(rs, c) || (start <= c < end),
{
    assert forall|c: int| #[trigger]
        rl_contains(full, c) <==> rl_contains(rs, c) || (start <= c < end) by {
        lemma_win_split(full, 0, i1, full.len() as int);
        lemma_win_split(full, i1, i1 + 1, full.len() as int);
        lemma_win_split(rs, 0, i1, rs.len() as int);
        lemma_win_split(rs, i1, i2, rs.len() as int);
        // prefix windows coincide
        assert(win_contains(full, 0, i1, c) <==> win_contains(rs, 0, i1, c)) by {
            if win_contains(full, 0, i1, c) {
                let j = choose|j: int| 0 <= j < i1 && j < full.len() && in_range(full[j], c);
                assert(full[j] == rs[j]);
                assert(in_range(rs[j], c));
            }
            if win_contains(rs, 0, i1, c) {
                let j = choose|j: int| 0 <= j < i1 && j < rs.len() && in_range(rs[j], c);
                assert(full[j] == rs[j]);
                assert(in_range(full[j], c));
            }
        }
        // the middle element covers exactly the merged interval
        assert(win_contains(full, i1, i1 + 1, c) <==> (ns <= c < ne)) by {
            assert(full[i1] == (ns, ne));
        }
        // suffix windows coincide, with shifted indices
        assert(win_contains(full, i1 + 1, full.len() as int, c) <==> win_contains(
            rs,
            i2,
            rs.len() as int,
            c,
        )) by {
            if win_contains(full, i1 + 1, full.len() as int, c) {
                let j = choose|j: int|
                    i1 + 1 <= j < full.len() && j < full.len() && in_range(full[j], c);
                assert(full[j] == rs[j - i1 - 1 + i2]);
                assert(in_range(rs[j - i1 - 1 + i2], c));
                assert(win_contains(rs, i2, rs.len() as int, c));
            }
            if win_contains(rs, i2, rs.len() as int, c) {
                let j = choose|j: int| i2 <= j < rs.len() && in_range(rs[j], c);
                assert(full[j - i2 + i1 + 1] == rs[j]);
                assert(in_range(full[j - i2 + i1 + 1], c));
                assert(win_contains(full, i1 + 1, full.len() as int, c));
            }
        }
    }
}

/// Adds the range `start..end` to a canonical list, keeping it canonical;
/// the set of covered clocks grows by exactly `start..end`.
#[verifier::rlimit(50)]
pub fn rl_insert(rs: &Vec<(u32, u32)>, start: u32, end: u32) -> (out: Vec<(u32, u32)>)
    requires
        rl_wf(rs@),
        start < end,
    ensures
        rl_wf(out@),
        forall|c: int| #[trigger]
            rl_contains(out@, c) <==> rl_contains(rs@, c) || (start <= c < end),
        out@.len() >= 1,
{
    let len = rs.len();
    let mut out: Vec<(u32, u32)> = Vec::new();
    let mut i: usize = 0;
    while i < len && rs[i].1 < start
        invariant
            len == rs@.len(),
            i <= len,
            out@ =~= rs@.subrange(0, i as int),
            forall|j: int| 0 <= j < i ==> (#[trigger] rs@[j]).1 < start,
            rl_wf(rs@),
            start < end,
        decreases len - i,
    {
        out.push(rs[i]);
        i = i + 1;
        assert(out@ =~= rs@.subrange(0, i as int));
    }
    let ghost i1 = i as int;
    let mut ns: u32 = start;
    let mut ne: u32 = end;
    while i < len && rs[i].0 <= ne
        invariant
            len == rs@.len(),
            0 <= i1 <= i as int <= len,
            rl_wf(rs@),
            start < end,
            ns <= start,
            ne >= end,
            i as int == i1 ==> ns == start && ne == end,
            i as int > i1 ==> ne >= rs@[i as int - 1].1 && ns <= rs@[i as int - 1].0,
            i1 > 0 ==> rs@[i1 - 1].1 < ns,
            i1 < len ==> rs@[i1].1 >= start,
            forall|j: int| 0 <= j < i1 ==> (#[trigger] rs@[j]).1 < start,
            forall|c: int|
                (ns <= c < ne) <==> (start <= c < end) || #[trigger] win_contains(
                    rs@,
                    i1,
                    i as int,
                    c,
                ),
            out@ =~= rs@.subrange(0, i1),
        decreases len - i,
    {
        let (a, b) = rs[i];
        proof {
            lemma_rl_wf_ordered(rs@);
            if i as int > i1 {
                let k = i as int - 1;
                assert(i1 <= k);
                assert(k + 1 < len);
                assert(0 <= k < rs@.len() - 1);
                assert(rs@[k].1 < rs@[k + 1].0);
                assert(ns <= rs@[k].0 < rs@[k].1);
            }
            assert(a >= ns || i as int == i1);
            // the new range touches the accumulated one on both sides
            assert(a <= ne);
            assert(b >= ns) by {
                if i as int == i1 {
                    assert(b == rs@[i1].1);
                    assert(rs@[i1].1 >= start);
                    assert(ns == start);
                } else {
                    assert(b > a);
                }
            }
        }
        let ghost old_ns = ns;
        let ghost old_ne = ne;
        proof {
            if i1 > 0 {
                assert(rs@[i1 - 1].1 < rs@[i as int].0);
            }
        }
        if a < ns {
            ns = a;
        }
        if b > ne {
            ne = b;
        }
        proof {
            assert forall|c: int|
                (ns <= c < ne) <==> (start <= c < end) || #[trigger] win_contains(
                    rs@,
                    i1,
                    i as int + 1,
                    c,
                ) by {
                lemma_win_split(rs@, i1, i as int, i as int + 1);
                assert(win_contains(rs@, i as int, i as int + 1, c) <==> in_range(rs@[i as int], c));
                assert((ns <= c < ne) <==> (old_ns <= c < old_ne) || (a <= c < b));
            }
        }
        i = i + 1;
    }
    let ghost i2 = i as int;
    proof {
        if out@.len() > 0 {
            assert(out@[out@.len() - 1] == rs@[i1 - 1]);
            assert(rs@[i1 - 1].1 < ns);
        }
    }
    out.push((ns, ne));
    proof {
        assert(out@ =~= rs@.subrange(0, i1) + seq![(ns, ne)]);
        assert(rl_wf(out@)) by {
            assert(forall|j: int| 0 <= j < i1 ==> out@[j] == rs@[j]);
            if i1 > 0 {
                assert(rs@[i1 - 1].1 < ns);
            }
        }
    }
    while i < len
        invariant
            len == rs@.len(),
            i2 <= i as int <= len,
            rl_wf(rs@),
            rl_wf(out@),
            ns < ne,
            i2 < len ==> ne < rs@[i2].0,
            out@ =~= rs@.subrange(0, i1) + seq![(ns, ne)] + rs@.subrange(i2, i as int),
            0 <= i1 <= i2 <= len,
            out@.len() == i1 + 1 + (i as int - i2),
        decreases len - i,
    {
        proof {
            lemma_rl_wf_ordered(rs@);
            assert(out@[out@.len() - 1] == if i as int == i2 {
                (ns, ne)
            } else {
                rs@[i as int - 1]
            });
            if i as int > i2 {
                assert(rs@[i as int - 1].1 < rs@[i as int].0);
            } else {
                assert(ne < rs@[i2].0);
            }
        }
        let ghost prev = out@;
        out.push(rs[i]);
        i = i + 1;
        proof {
            assert(out@ =~= rs@.subrange(0, i1) + seq![(ns, ne)] + rs@.subrange(i2, i as int));
            assert(rl_wf(out@)) by {
                assert(forall|j: int| 0 <= j < out@.len() - 1 ==> out@[j] == prev[j]);
            }
        }
    }
    proof {
        lemma_rl_insert_cover(rs@, out@, i1, i2, ns, ne, start, end);
    }
    out
}

} // verus!

verus! {

/// Canonical form is unique: two canonical lists covering the same clocks
/// are the same list.
pub proof fn lemma_rl_canonical_unique(a: Seq<(u32, u32)>, b: Seq<(u32, u32)>)
    requires
        rl_wf(a),
        rl_wf(b),
        forall|c: int| #[trigger] rl_contains(a, c) == rl_contains(b, c),
    ensures
        a == b,
    decreases a.len(),
{
    if a.len() == 0 {
        if b.len() > 0 {
            assert(in_range(b[0], b[0].0 as int));
            assert(rl_contains(b, b[0].0 as int));
            assert(!rl_contains(a, b[0].0 as int));
        }
        assert(a =~= b);
    } else if b.len() == 0 {
        assert(in_range(a[0], a[0].0 as int));
        assert(rl_contains(a, a[0].0 as int));
        assert(!rl_contains(b, a[0].0 as int));
    } else {
        lemma_rl_wf_ordered(a);
        lemma_rl_wf_ordered(b);
        // the least covered clock is each list's first start
        assert(a[0].0 == b[0].0) by {
            lemma_rl_first_start(a, b);
            lemma_rl_first_start(b, a);
        }
        // the first gap after it is each list's first end
        assert(a[0].1 == b[0].1) by {
            lemma_rl_first_end(a, b);
            lemma_rl_first_end(b, a);
        }
        assert(a[0] == b[0]);
        assert forall|c: int| #[trigger]
            rl_contains(a.skip(1), c) == rl_contains(b.skip(1), c) by {
            lemma_rl_skip_contains(a, c);
            lemma_rl_skip_contains(b, c);
        }
        lemma_rl_canonical_unique(a.skip(1), b.skip(1));
        assert(a =~= b) by {
            assert(forall|i: int| 1 <= i < a.len() ==> a[i] == a.skip(1)[i - 1]);
            assert(forall|i: int| 1 <= i < b.len() ==> b[i] == b.skip(1)[i - 1]);
        }
    }
}

/// The first start of `b` is covered by `a`, and `a` covers nothing below
/// its own first start, so `a[0].0 <= b[0].0`.
proof fn lemma_rl_first_start(a: Seq<(u32, u32)>, b: Seq<(u32, u32)>)
    requires
        rl_wf(a),
        rl_wf(b),
        a.len() > 0,
        b.len() > 0,
        forall|c: int| #[trigger] rl_contains(a, c) == rl_contains(b, c),
    ensures
        a[0].0 <= b[0].0,
{
    lemma_rl_wf_ordered(a);
    assert(in_range(b[0], b[0].0 as int));
    assert(rl_contains(b, b[0].0 as int));
    assert(rl_contains(a, b[0].0 as int));
    let j = choose|j: int| 0 <= j < a.len() && in_range(a[j], b[0].0 as int);
    assert(a[0].0 <= a[j].0) by {
        if j > 0 {
            assert(a[0].1 < a[j].0);
        }
    }
}

/// Both lists share their first range's start; `a` covers every clock of
/// `b`'s first range but not `b[0].1` beyond a gap, so `a[0].1 >= b[0].1`.
proof fn lemma_rl_first_end(a: Seq<(u32, u32)>, b: Seq<(u32, u32)>)
    requires
        rl_wf(a),
        rl_wf(b),
        a.len() > 0,
        b.len() > 0,
        a[0].0 == b[0].0,
        forall|c: int| #[trigger] rl_contains(a, c) == rl_contains(b, c),
    ensures
        a[0].1 >= b[0].1,
{
    lemma_rl_wf_ordered(a);
    if a[0].1 < b[0].1 {
        // the clock just past a's first range is inside b's first range,
        // but a leaves a gap there
        let c = a[0].1 as int;
        assert(in_range(b[0], c));
        assert(rl_contains(b, c));
        assert(rl_contains(a, c));
        let j = choose|j: int| 0 <= j < a.len() && in_range(a[j], c);
        assert(j != 0);
        assert(a[0].1 < a[j].0);
    }
}

/// Dropping a canonical list's first range removes exactly its clocks from
/// the coverage.
proof fn lemma_rl_skip_contains(a: Seq<(u32, u32)>, c: int)
    requires
        rl_wf(a),
        a.len() > 0,
    ensures
        rl_contains(a.skip(1), c) == (rl_contains(a, c) && c >= a[0].1),
{
    lemma_rl_wf_ordered(a);
    let t = a.skip(1);
    assert(rl_wf(t)) by {
        assert(forall|i: int| 0 <= i < t.len() ==> t[i] == a[i + 1]);
    }
    if rl_contains(t, c) {
        let j = choose|j: int| 0 <= j < t.len() && in_range(t[j], c);
        assert(t[j] == a[j + 1]);
        assert(rl_contains(a, c));
        assert(a[0].1 < a[j + 1].0);
    }
    if rl_contains(a, c) && c >= a[0].1 {
        let j = choose|j: int| 0 <= j < a.len() && in_range(a[j], c);
        assert(j != 0);
        assert(in_range(t[j - 1], c));
        assert(rl_contains(t, c));
    }
}

} // verus!
