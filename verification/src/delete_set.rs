//! Delete sets: per-client records of tombstoned clock ranges.
//!
//! A delete set maps client identifiers to canonical range lists (see
//! [`crate::ranges`]). Entries are kept in ascending client order with no
//! empty lists, so equal sets of (client, clock) pairs compare equal as
//! values.

use vstd::prelude::*;
use vstd::pervasive::VecAdditionalExecFns;
use crate::ranges::{in_range, rl_contains, rl_insert, rl_wf, win_contains};

verus! {

/// The mathematical content of a delete set: per client, a sequence of
/// half-open clock ranges.
pub type DsModel = Seq<(u64, Seq<(u32, u32)>)>;

/// Deep view of the entry vector.
pub open spec fn ev(es: Seq<(u64, Vec<(u32, u32)>)>) -> DsModel {
    Seq::new(es.len(), |i: int| (es[i].0, es[i].1@))
}

/// Canonical form: clients strictly ascending, every range list canonical
/// and non-empty.
pub open spec fn ds_wf(e: DsModel) -> bool {
    &&& forall|i: int|
        0 <= i < e.len() ==> rl_wf((#[trigger] e[i]).1) && e[i].1.len() >= 1
    &&& forall|i: int| 0 <= i < e.len() - 1 ==> (#[trigger] e[i]).0 < e[i + 1].0
}

/// Is the operation `(client, c)` recorded as deleted?
pub open spec fn ds_contains(e: DsModel, client: u64, c: int) -> bool {
    exists|i: int| 0 <= i < e.len() && (#[trigger] e[i]).0 == client && rl_contains(e[i].1, c)
}

/// In a canonical delete set the clients are pairwise ascending.
pub proof fn lemma_ds_wf_ordered(e: DsModel)
    requires
        ds_wf(e),
    ensures
        forall|i: int, j: int| 0 <= i < j < e.len() ==> (#[trigger] e[i]).0 < (#[trigger] e[j]).0,
{
    assert forall|i: int, j: int| 0 <= i < j < e.len() implies (#[trigger] e[i]).0 < (
    #[trigger] e[j]).0 by {
        lemma_ds_wf_ordered_step(e, i, j);
    }
}

proof fn lemma_ds_wf_ordered_step(e: DsModel, i: int, j: int)
    requires
        ds_wf(e),
        0 <= i < j < e.len(),
    ensures
        e[i].0 < e[j].0,
    decreases j - i,
{
    if j > i + 1 {
        lemma_ds_wf_ordered_step(e, i, j - 1);
    }
}

/// A set of tombstoned operations, kept per client as sorted, coalesced,
/// non-overlapping clock ranges.
pub struct DeleteSet {
    entries: Vec<(u64, Vec<(u32, u32)>)>,
}

impl View for DeleteSet {
    type V = DsModel;

    closed spec fn view(&self) -> DsModel {
        ev(self.entries@)
    }
}

impl DeleteSet {
    /// An empty delete set.
    pub fn new() -> (r: DeleteSet)
        ensures
            r@ == Seq::<(u64, Seq<(u32, u32)>)>::empty(),
            ds_wf(r@),
    {
        let r = DeleteSet { entries: Vec::new() };
        proof {
            assert(r@ =~= Seq::<(u64, Seq<(u32, u32)>)>::empty());
        }
        r
    }

    /// No operation is recorded.
    pub fn is_empty(&self) -> (r: bool)
        ensures
            r == (self@.len() == 0),
    {
        self.entries.len() == 0
    }

    /// The number of clients with recorded deletions.
    pub fn client_count(&self) -> (r: usize)
        ensures
            r == self@.len(),
    {
        self.entries.len()
    }

    /// The client of the entry at position `i`.
    pub fn client_at(&self, i: usize) -> (r: u64)
        requires
            i < self@.len(),
        ensures
            r == self@[i as int].0,
    {
        let (c, _) = &self.entries[i];
        *c
    }

    /// How many ranges the entry at position `i` holds.
    pub fn range_count(&self, i: usize) -> (r: usize)
        requires
            i < self@.len(),
        ensures
            r == self@[i as int].1.len(),
    {
        let (_, rs) = &self.entries[i];
        rs.len()
    }

    /// The `k`-th range of the entry at position `i`.
    pub fn range_at(&self, i: usize, k: usize) -> (r: (u32, u32))
        requires
            i < self@.len(),
            k < self@[i as int].1.len(),
        ensures
            r == self@[i as int].1[k as int],
    {
        let (_, rs) = &self.entries[i];
        rs[k]
    }

    /// Is clock `clock` of client `client` recorded as deleted?
    pub fn contains(&self, client: u64, clock: u32) -> (r: bool)
        requires
            ds_wf(self@),
        ensures
            r == ds_contains(self@, client, clock as int),
    {
        let n = self.entries.len();
        let mut i: usize = 0;
        while i < n
            invariant
                n == self@.len(),
                i <= n,
                ds_wf(self@),
                forall|j: int| 0 <= j < i ==> (#[trigger] self@[j]).0 != client,
            decreases n - i,
        {
            let (c, rs) = &self.entries[i];
            if *c == client {
                let m = rs.len();
                let mut k: usize = 0;
                while k < m
                    invariant
                        m == rs@.len(),
                        k <= m,
                        rs@ == self@[i as int].1,
                        i < self@.len(),
                        self@[i as int].0 == client,
                        forall|j: int| 0 <= j < k ==> !in_range(#[trigger] rs@[j], clock as int),
                    decreases m - k,
                {
                    let (s, e) = rs[k];
                    if s <= clock && clock < e {
                        assert(in_range(rs@[k as int], clock as int));
                        assert(rl_contains(self@[i as int].1, clock as int));
                        return true;
                    }
                    k = k + 1;
                }
                proof {
                    assert(!rl_contains(self@[i as int].1, clock as int));
                    lemma_ds_wf_ordered(self@);
                    assert forall|j: int|
                        0 <= j < self@.len() && (#[trigger] self@[j]).0 == client implies !rl_contains(
                        self@[j].1,
                        clock as int,
                    ) by {
                        if j != i as int {
                            assert(self@[j].0 != self@[i as int].0);
                        }
                    }
                }
                return false;
            }
            i = i + 1;
        }
        false
    }

    /// Appends an entry whose client is above every recorded one; used by
    /// decoding, which visits clients in ascending order.
    pub fn push_entry(&mut self, client: u64, ranges: Vec<(u32, u32)>)
        requires
            ds_wf(old(self)@),
            rl_wf(ranges@),
            ranges@.len() >= 1,
            old(self)@.len() > 0 ==> client > old(self)@[old(self)@.len() - 1].0,
        ensures
            final(self)@ == old(self)@.push((client, ranges@)),
            ds_wf(final(self)@),
    {
        let ghost pre = self@;
        let ghost rv = ranges@;
        self.entries.push((client, ranges));
        proof {
            assert(self@ =~= pre.push((client, rv)));
            assert(ds_wf(self@)) by {
                assert(forall|j: int| 0 <= j < pre.len() ==> self@[j] == pre[j]);
                assert(self@[self@.len() - 1] == (client, rv));
            }
        }
    }

    /// Records the clocks `clock .. clock + len` of `client` as deleted.
    /// A zero-length insertion changes nothing.
    pub fn insert(&mut self, client: u64, clock: u32, len: u32)
        requires
            ds_wf(old(self)@),
            clock + len <= u32::MAX,
        ensures
            ds_wf(final(self)@),
            forall|cl: u64, c: int| #[trigger]
                ds_contains(final(self)@, cl, c) <==> ds_contains(old(self)@, cl, c) || (cl
                    == client && clock <= c < clock + len),
    {
        if len == 0 {
            return;
        }
        let end = clock + len;
        let n = self.entries.len();
        let ghost pre = self@;
        let mut i: usize = 0;
        while i < n && self.entries[i].0 < client
            invariant
                self == old(self),
                pre == self@,
                n == self@.len(),
                i <= n,
                ds_wf(self@),
                forall|j: int| 0 <= j < i ==> (#[trigger] self@[j]).0 < client,
            decreases n - i,
        {
            i = i + 1;
        }
        let ghost i1 = i as int;
        if i < n && self.entries[i].0 == client {
            // the client already has ranges: extend them
            proof {
                assert(self@[i as int].1 == self.entries@[i as int].1@);
                assert(rl_wf(self@[i as int].1));
            }
            let merged = rl_insert(&self.entries[i].1, clock, end);
            let ghost nr = merged@;
            self.entries.set(i, (client, merged));
            proof {
                assert(self@ =~= pre.update(i1, (client, nr)));
                lemma_ds_replace(pre, self@, i1, clock, end, client);
            }
        } else {
            // no entry for the client yet: add one at the sorted position
            let mut fresh: Vec<(u32, u32)> = Vec::new();
            fresh.push((clock, end));
            self.entries.insert(i, (client, fresh));
            proof {
                assert(self@ =~= pre.insert(i1, (client, seq![(clock, end)])));
                assert(self@.len() == pre.len() + 1);
                assert(forall|j: int| 0 <= j < i1 ==> #[trigger] self@[j] == pre[j]);
                assert(self@[i1] == (client, seq![(clock, end)]));
                assert(forall|j: int| i1 < j < self@.len() ==> #[trigger] self@[j] == pre[j - 1]);
                lemma_ds_fresh(pre, self@, i1, clock, end, client);
            }
        }
    }

    /// Folds every deletion of `other` into `self`: afterwards an operation
    /// is recorded if and only if either set recorded it.
    pub fn merge_with(&mut self, other: &DeleteSet)
        requires
            ds_wf(old(self)@),
            ds_wf(other@),
        ensures
            ds_wf(final(self)@),
            forall|cl: u64, c: int| #[trigger]
                ds_contains(final(self)@, cl, c) <==> ds_contains(old(self)@, cl, c)
                    || ds_contains(other@, cl, c),
    {
        let n = other.entries.len();
        let mut i: usize = 0;
        while i < n
            invariant
                n == other@.len(),
                i <= n,
                ds_wf(self@),
                ds_wf(other@),
                forall|cl: u64, c: int| #[trigger]
                    ds_contains(self@, cl, c) <==> ds_contains(old(self)@, cl, c)
                        || ds_contains_upto(other@, i as int, cl, c),
            decreases n - i,
        {
            let (client, rs) = &other.entries[i];
            let client = *client;
            let m = rs.len();
            let mut k: usize = 0;
            while k < m
                invariant
                    m == rs@.len(),
                    k <= m,
                    ds_wf(self@),
                    ds_wf(other@),
                    i < other@.len(),
                    rs@ == other@[i as int].1,
                    forall|cl: u64, c: int| #[trigger]
                        ds_contains(self@, cl, c) <==> ds_contains(old(self)@, cl, c)
                            || ds_contains_upto(other@, i as int, cl, c) || (cl == client
                            && win_contains(rs@, 0, k as int, c)),
                decreases m - k,
            {
                let (s, e) = rs[k];
                proof {
                    assert(rl_wf(other@[i as int].1));
                    assert(rs@[k as int].0 < rs@[k as int].1);
                }
                self.insert(client, s, e - s);
                proof {
                    lemma_win_extend(rs@, k as int, client, s as int, e as int);
                }
                k = k + 1;
            }
            proof {
                assert(other@[i as int].0 == client);
                lemma_upto_extend(other@, i as int, client);
            }
            i = i + 1;
        }
        proof {
            assert(forall|cl: u64, c: int| #[trigger]
                ds_contains_upto(other@, n as int, cl, c) == ds_contains(other@, cl, c));
        }
    }
}

/// Containment restricted to the first `hi` clients of a delete set.
pub open spec fn ds_contains_upto(e: DsModel, hi: int, client: u64, c: int) -> bool {
    exists|i: int|
        0 <= i < hi && i < e.len() && (#[trigger] e[i]).0 == client && rl_contains(e[i].1, c)
}

proof fn lemma_win_extend(rs: Seq<(u32, u32)>, k: int, client: u64, s: int, e: int)
    requires
        0 <= k < rs.len(),
        rs[k].0 == s,
        rs[k].1 == e,
    ensures
        forall|c: int| #[trigger]
            win_contains(rs, 0, k + 1, c) <==> win_contains(rs, 0, k, c) || (s <= c < e),
{
    assert forall|c: int| #[trigger]
        win_contains(rs, 0, k + 1, c) <==> win_contains(rs, 0, k, c) || (s <= c < e) by {
        if win_contains(rs, 0, k + 1, c) {
            let j = choose|j: int| 0 <= j < k + 1 && j < rs.len() && in_range(rs[j], c);
            if j < k {
                assert(win_contains(rs, 0, k, c));
            }
        }
        if win_contains(rs, 0, k, c) {
            let j = choose|j: int| 0 <= j < k && j < rs.len() && in_range(rs[j], c);
            assert(0 <= j < k + 1 && in_range(rs[j], c));
        }
        if s <= c < e {
            assert(in_range(rs[k], c));
        }
    }
}

proof fn lemma_upto_extend(e: DsModel, i: int, client: u64)
    requires
        0 <= i < e.len(),
        e[i].0 == client,
    ensures
        forall|cl: u64, c: int| #[trigger]
            ds_contains_upto(e, i + 1, cl, c) <==> ds_contains_upto(e, i, cl, c) || (cl == client
                && rl_contains(e[i].1, c)),
{
    assert forall|cl: u64, c: int| #[trigger]
        ds_contains_upto(e, i + 1, cl, c) <==> ds_contains_upto(e, i, cl, c) || (cl == client
            && rl_contains(e[i].1, c)) by {
        if ds_contains_upto(e, i + 1, cl, c) {
            let j = choose|j: int|
                0 <= j < i + 1 && j < e.len() && (#[trigger] e[j]).0 == cl && rl_contains(
                    e[j].1,
                    c,
                );
            if j < i {
                assert(ds_contains_upto(e, i, cl, c));
            }
        }
        if ds_contains_upto(e, i, cl, c) {
            let j = choose|j: int|
                0 <= j < i && j < e.len() && (#[trigger] e[j]).0 == cl && rl_contains(e[j].1, c);
            assert(0 <= j < i + 1 && e[j].0 == cl && rl_contains(e[j].1, c));
        }
    }
}

/// Replacing one client's ranges with a list covering the old clocks plus
/// `start..end` extends containment by exactly that interval.
#[verifier::rlimit(100)]
proof fn lemma_ds_replace(pre: DsModel, full: DsModel, i1: int, start: u32, end: u32, client: u64)
    requires
        ds_wf(pre),
        0 <= i1 < pre.len(),
        pre[i1].0 == client,
        start < end,
        full =~= pre.update(i1, (client, full[i1].1)),
        rl_wf(full[i1].1),
        full[i1].1.len() >= 1,
        forall|c: int| #[trigger]
            rl_contains(full[i1].1, c) <==> rl_contains(pre[i1].1, c) || (start <= c < end),
    ensures
        ds_wf(full),
        forall|cl: u64, c: int| #[trigger]
            ds_contains(full, cl, c) <==> ds_contains(pre, cl, c) || (cl == client && start <= c
                < end),
{
    assert(full.len() == pre.len());
    assert(forall|j: int| 0 <= j < full.len() && j != i1 ==> full[j] == pre[j]);
    assert(full[i1].0 == client);
    assert(ds_wf(full));
    lemma_ds_wf_ordered(pre);
    assert forall|cl: u64, c: int| #[trigger]
        ds_contains(full, cl, c) <==> ds_contains(pre, cl, c) || (cl == client && start <= c
            < end) by {
        if ds_contains(full, cl, c) {
            let j = choose|j: int|
                0 <= j < full.len() && (#[trigger] full[j]).0 == cl && rl_contains(full[j].1, c);
            if j == i1 {
                assert(rl_contains(pre[i1].1, c) || (start <= c < end));
                if rl_contains(pre[i1].1, c) {
                    assert(pre[i1].0 == cl);
                    assert(ds_contains(pre, cl, c));
                }
            } else {
                assert(pre[j].0 == cl && rl_contains(pre[j].1, c));
            }
        }
        if ds_contains(pre, cl, c) {
            let j = choose|j: int|
                0 <= j < pre.len() && (#[trigger] pre[j]).0 == cl && rl_contains(pre[j].1, c);
            if j == i1 {
                assert(rl_contains(full[i1].1, c));
                assert(full[i1].0 == cl);
            } else {
                assert(full[j].0 == cl && rl_contains(full[j].1, c));
            }
        }
        if cl == client && start <= c < end {
            assert(rl_contains(full[i1].1, c));
            assert(full[i1].0 == cl);
        }
    }
}

/// Inserting a fresh client entry holding exactly `start..end` extends
/// containment by exactly that interval.
#[verifier::rlimit(100)]
proof fn lemma_ds_fresh(pre: DsModel, full: DsModel, i1: int, start: u32, end: u32, client: u64)
    requires
        ds_wf(pre),
        0 <= i1 <= pre.len(),
        forall|j: int| 0 <= j < i1 ==> (#[trigger] pre[j]).0 < client,
        i1 < pre.len() ==> pre[i1].0 > client,
        start < end,
        full.len() == pre.len() + 1,
        forall|j: int| 0 <= j < i1 ==> #[trigger] full[j] == pre[j],
        full[i1] == (client, seq![(start, end)]),
        forall|j: int| i1 < j < full.len() ==> #[trigger] full[j] == pre[j - 1],
    ensures
        ds_wf(full),
        forall|cl: u64, c: int| #[trigger]
            ds_contains(full, cl, c) <==> ds_contains(pre, cl, c) || (cl == client && start <= c
                < end),
{
    assert(rl_wf(seq![(start, end)]));
    assert(ds_wf(full)) by {
        assert forall|j: int| 0 <= j < full.len() - 1 implies (#[trigger] full[j]).0 < full[j
            + 1].0 by {
            if j == i1 - 1 {
                assert(full[j].0 == pre[j].0);
            } else if j == i1 {
                assert(full[j + 1].0 == pre[j].0);
            }
        }
    }
    lemma_ds_wf_ordered(pre);
    assert forall|cl: u64, c: int| #[trigger]
        ds_contains(full, cl, c) <==> ds_contains(pre, cl, c) || (cl == client && start <= c
            < end) by {
        if ds_contains(full, cl, c) {
            let j = choose|j: int|
                0 <= j < full.len() && (#[trigger] full[j]).0 == cl && rl_contains(full[j].1, c);
            if j == i1 {
                assert(cl == client);
                assert(in_range((start, end), c)) by {
                    let w = choose|w: int|
                        0 <= w < seq![(start, end)].len() && in_range(
                            #[trigger] seq![(start, end)][w],
                            c,
                        );
                }
            } else if j < i1 {
                assert(pre[j].0 == cl && rl_contains(pre[j].1, c));
            } else {
                assert(pre[j - 1].0 == cl && rl_contains(pre[j - 1].1, c));
            }
        }
        if ds_contains(pre, cl, c) {
            let j = choose|j: int|
                0 <= j < pre.len() && (#[trigger] pre[j]).0 == cl && rl_contains(pre[j].1, c);
            if j < i1 {
                assert(full[j].0 == cl && rl_contains(full[j].1, c));
            } else {
                assert(full[j + 1].0 == cl && rl_contains(full[j + 1].1, c));
            }
        }
        if cl == client && start <= c < end {
            assert(in_range(seq![(start, end)][0], c));
            assert(rl_contains(full[i1].1, c));
        }
    }
}

} // verus!

verus! {

/// Every range of every entry runs forward: its start does not exceed its
/// end.
pub open spec fn entries_ranges_ordered(es: Seq<(u64, Vec<(u32, u32)>)>) -> bool {
    forall|i: int|
        0 <= i < es.len() ==> forall|k: int|
            0 <= k < (#[trigger] es[i]).1@.len() ==> ((#[trigger] es[i].1@[k]).0 <= es[i].1@[k].1)
}

/// Every client of the raw entry data fits the engine's identifier space.
pub open spec fn entries_clients_fit(es: Seq<(u64, Vec<(u32, u32)>)>) -> bool {
    forall|i: int| 0 <= i < es.len() ==> crate::engine::fits_client_id((#[trigger] es[i]).0)
}

/// Every recorded client fits the engine's identifier space.
pub open spec fn ds_clients_fit(e: DsModel) -> bool {
    forall|i: int| 0 <= i < e.len() ==> crate::engine::fits_client_id((#[trigger] e[i]).0)
}

/// Every half of every stack item names only clients of the engine's
/// identifier space, with forward-running ranges; what seeding an undo
/// manager's stacks needs.
pub open spec fn stack_data_ok(
    d: Seq<(Vec<(u64, Vec<(u32, u32)>)>, Vec<(u64, Vec<(u32, u32)>)>)>,
) -> bool {
    forall|i: int|
        0 <= i < d.len() ==> {
            &&& entries_clients_fit((#[trigger] d[i]).0@)
            &&& entries_ranges_ordered(d[i].0@)
            &&& entries_clients_fit(d[i].1@)
            &&& entries_ranges_ordered(d[i].1@)
        }
}

/// Is `(cl, c)` covered by one of the first `hi` raw entries?
pub open spec fn raw_contains_upto(
    es: Seq<(u64, Vec<(u32, u32)>)>,
    hi: int,
    cl: u64,
    c: int,
) -> bool {
    exists|i: int|
        0 <= i < hi && i < es.len() && (#[trigger] es[i]).0 == cl && rl_contains(es[i].1@, c)
}

/// Is `(cl, c)` covered by some raw entry?
pub open spec fn raw_contains(es: Seq<(u64, Vec<(u32, u32)>)>, cl: u64, c: int) -> bool {
    raw_contains_upto(es, es.len() as int, cl, c)
}

proof fn lemma_raw_upto_extend(es: Seq<(u64, Vec<(u32, u32)>)>, i: int)
    requires
        0 <= i < es.len(),
    ensures
        forall|cl: u64, c: int| #[trigger]
            raw_contains_upto(es, i + 1, cl, c) <==> raw_contains_upto(es, i, cl, c) || (cl
                == es[i].0 && rl_contains(es[i].1@, c)),
{
    assert forall|cl: u64, c: int| #[trigger]
        raw_contains_upto(es, i + 1, cl, c) <==> raw_contains_upto(es, i, cl, c) || (cl == es[i].0
            && rl_contains(es[i].1@, c)) by {
        if raw_contains_upto(es, i + 1, cl, c) {
            let j = choose|j: int|
                0 <= j < i + 1 && j < es.len() && (#[trigger] es[j]).0 == cl && rl_contains(
                    es[j].1@,
                    c,
                );
            if j < i {
                assert(raw_contains_upto(es, i, cl, c));
            }
        }
        if raw_contains_upto(es, i, cl, c) {
            let j = choose|j: int|
                0 <= j < i && j < es.len() && (#[trigger] es[j]).0 == cl && rl_contains(
                    es[j].1@,
                    c,
                );
            assert(0 <= j < i + 1 && es[j].0 == cl && rl_contains(es[j].1@, c));
        }
    }
}

impl DeleteSet {
    /// Builds a canonical delete set covering exactly the clocks the raw
    /// entry data covers, whatever order or overlap that data has; empty
    /// or backwards ranges contribute nothing.
    pub fn from_entries(entries: &Vec<(u64, Vec<(u32, u32)>)>) -> (r: DeleteSet)
        ensures
            ds_wf(r@),
            forall|cl: u64, c: int| #[trigger]
                ds_contains(r@, cl, c) <==> raw_contains(entries@, cl, c),
    {
        let mut ds = DeleteSet::new();
        let n = entries.len();
        let mut i: usize = 0;
        while i < n
            invariant
                n == entries@.len(),
                i <= n,
                ds_wf(ds@),
                forall|cl: u64, c: int| #[trigger]
                    ds_contains(ds@, cl, c) <==> raw_contains_upto(entries@, i as int, cl, c),
            decreases n - i,
        {
            let (client, rs) = &entries[i];
            let client = *client;
            let m = rs.len();
            let mut k: usize = 0;
            while k < m
                invariant
                    m == rs@.len(),
                    k <= m,
                    ds_wf(ds@),
                    i < entries@.len(),
                    rs@ == entries@[i as int].1@,
                    entries@[i as int].0 == client,
                    forall|cl: u64, c: int| #[trigger]
                        ds_contains(ds@, cl, c) <==> raw_contains_upto(entries@, i as int, cl, c)
                            || (cl == client && win_contains(rs@, 0, k as int, c)),
                decreases m - k,
            {
                let (s, e) = rs[k];
                if s < e {
                    ds.insert(client, s, e - s);
                }
                proof {
                    lemma_win_extend(rs@, k as int, client, s as int, e as int);
                }
                k = k + 1;
            }
            proof {
                lemma_raw_upto_extend(entries@, i as int);
                assert(forall|c: int| #[trigger]
                    win_contains(rs@, 0, m as int, c) == rl_contains(entries@[i as int].1@, c));
            }
            i = i + 1;
        }
        ds
    }

    /// The entries as plain nested vectors.
    pub fn to_entries(&self) -> (r: Vec<(u64, Vec<(u32, u32)>)>)
        requires
            ds_wf(self@),
        ensures
            ev(r@) == self@,
            entries_ranges_ordered(r@),
    {
        let n = self.client_count();
        let mut out: Vec<(u64, Vec<(u32, u32)>)> = Vec::new();
        let mut i: usize = 0;
        while i < n
            invariant
                n == self@.len(),
                i <= n,
                out@.len() == i,
                ds_wf(self@),
                ev(out@) =~= self@.subrange(0, i as int),
                entries_ranges_ordered(out@),
            decreases n - i,
        {
            let client = self.client_at(i);
            let m = self.range_count(i);
            let mut rs: Vec<(u32, u32)> = Vec::new();
            let mut k: usize = 0;
            while k < m
                invariant
                    i < self@.len(),
                    m == self@[i as int].1.len(),
                    k <= m,
                    ds_wf(self@),
                    rs@ =~= self@[i as int].1.take(k as int),
                decreases m - k,
            {
                rs.push(self.range_at(i, k));
                k = k + 1;
                assert(rs@ =~= self@[i as int].1.take(k as int));
            }
            proof {
                assert(self@[i as int].1.take(m as int) =~= self@[i as int].1);
                assert(forall|q: int|
                    0 <= q < rs@.len() ==> ((#[trigger] rs@[q]).0 <= rs@[q].1));
            }
            let ghost pre_out = out@;
            let ghost rsv = rs@;
            out.push((client, rs));
            proof {
                let target = self@.subrange(0, i as int + 1);
                assert(rsv == self@[i as int].1);
                assert(out@.len() == pre_out.len() + 1);
                assert(forall|q: int| 0 <= q < pre_out.len() ==> out@[q] == pre_out[q]);
                assert(out@[i as int].0 == client && out@[i as int].1@ == rsv);
                assert forall|j: int| 0 <= j < i + 1 implies ev(out@)[j] == target[j] by {
                    if j < i as int {
                        assert(ev(pre_out)[j] == self@.subrange(0, i as int)[j]);
                        assert(ev(out@)[j] == ev(pre_out)[j]);
                    } else {
                        assert(ev(out@)[j] == (client, rsv));
                    }
                }
                assert(ev(out@) =~= target);
                assert(entries_ranges_ordered(out@));
            }
            i = i + 1;
        }
        proof {
            assert(self@.subrange(0, n as int) =~= self@);
        }
        out
    }

    /// Whether every recorded client fits the engine's identifier space.
    pub fn clients_fit(&self) -> (r: bool)
        ensures
            r == ds_clients_fit(self@),
    {
        let n = self.client_count();
        let mut i: usize = 0;
        while i < n
            invariant
                n == self@.len(),
                i <= n,
                forall|j: int|
                    0 <= j < i ==> crate::engine::fits_client_id((#[trigger] self@[j]).0),
            decreases n - i,
        {
            if self.client_at(i) >= 0x20000000000000 {
                return false;
            }
            i = i + 1;
        }
        true
    }
}

} // verus!

verus! {

/// Canonical form is unique: two canonical delete sets recording the same
/// operations are the same value. Replicas that agree on what was deleted
/// therefore hold equal delete sets, whatever order the deletions arrived
/// in.
#[verifier::rlimit(100)]
pub proof fn lemma_ds_canonical_unique(a: DsModel, b: DsModel)
    requires
        ds_wf(a),
        ds_wf(b),
        forall|cl: u64, c: int| #[trigger] ds_contains(a, cl, c) == ds_contains(b, cl, c),
    ensures
        a == b,
    decreases a.len(),
{
    if a.len() == 0 {
        if b.len() > 0 {
            lemma_ds_head_covered(b);
            assert(!ds_contains(a, b[0].0, b[0].1[0].0 as int));
        }
        assert(a =~= b);
    } else if b.len() == 0 {
        lemma_ds_head_covered(a);
        assert(!ds_contains(b, a[0].0, a[0].1[0].0 as int));
    } else {
        assert(a[0].0 == b[0].0) by {
            lemma_ds_first_client(a, b);
            lemma_ds_first_client(b, a);
        }
        let cl0 = a[0].0;
        assert(a[0].1 == b[0].1) by {
            assert forall|c: int| #[trigger]
                rl_contains(a[0].1, c) == rl_contains(b[0].1, c) by {
                lemma_ds_head_contains(a, c);
                lemma_ds_head_contains(b, c);
            }
            crate::ranges::lemma_rl_canonical_unique(a[0].1, b[0].1);
        }
        assert(a[0] == b[0]);
        assert forall|cl: u64, c: int| #[trigger]
            ds_contains(a.skip(1), cl, c) == ds_contains(b.skip(1), cl, c) by {
            lemma_ds_skip_contains(a, cl, c);
            lemma_ds_skip_contains(b, cl, c);
        }
        assert(ds_wf(a.skip(1))) by {
            assert(forall|i: int| 0 <= i < a.skip(1).len() ==> a.skip(1)[i] == a[i + 1]);
        }
        assert(ds_wf(b.skip(1))) by {
            assert(forall|i: int| 0 <= i < b.skip(1).len() ==> b.skip(1)[i] == b[i + 1]);
        }
        lemma_ds_canonical_unique(a.skip(1), b.skip(1));
        assert(a =~= b) by {
            assert(forall|i: int| 1 <= i < a.len() ==> a[i] == a.skip(1)[i - 1]);
            assert(forall|i: int| 1 <= i < b.len() ==> b[i] == b.skip(1)[i - 1]);
        }
    }
}

/// A non-empty canonical delete set records something for its first
/// client.
proof fn lemma_ds_head_covered(e: DsModel)
    requires
        ds_wf(e),
        e.len() > 0,
    ensures
        e[0].1.len() > 0,
        ds_contains(e, e[0].0, e[0].1[0].0 as int),
{
    assert(rl_wf(e[0].1) && e[0].1.len() >= 1);
    assert(in_range(e[0].1[0], e[0].1[0].0 as int));
    assert(rl_contains(e[0].1, e[0].1[0].0 as int));
}

/// `b` records something for `a`'s first client, and `b` lists clients in
/// ascending order, so `b[0].0 <= a[0].0`.
proof fn lemma_ds_first_client(a: DsModel, b: DsModel)
    requires
        ds_wf(a),
        ds_wf(b),
        a.len() > 0,
        b.len() > 0,
        forall|cl: u64, c: int| #[trigger] ds_contains(a, cl, c) == ds_contains(b, cl, c),
    ensures
        b[0].0 <= a[0].0,
{
    lemma_ds_wf_ordered(b);
    lemma_ds_head_covered(a);
    assert(ds_contains(b, a[0].0, a[0].1[0].0 as int));
    let j = choose|j: int|
        0 <= j < b.len() && (#[trigger] b[j]).0 == a[0].0 && rl_contains(b[j].1, a[0].1[0].0 as int);
    assert(b[0].0 <= b[j].0);
}

/// For the first client, containment in the whole set is containment in
/// its range list.
proof fn lemma_ds_head_contains(e: DsModel, c: int)
    requires
        ds_wf(e),
        e.len() > 0,
    ensures
        ds_contains(e, e[0].0, c) == rl_contains(e[0].1, c),
{
    lemma_ds_wf_ordered(e);
    if ds_contains(e, e[0].0, c) {
        let j = choose|j: int|
            0 <= j < e.len() && (#[trigger] e[j]).0 == e[0].0 && rl_contains(e[j].1, c);
        assert(j == 0);
    }
}

/// Dropping a canonical delete set's first entry removes exactly that
/// client's record.
proof fn lemma_ds_skip_contains(e: DsModel, cl: u64, c: int)
    requires
        ds_wf(e),
        e.len() > 0,
    ensures
        ds_contains(e.skip(1), cl, c) == (ds_contains(e, cl, c) && cl != e[0].0),
{
    lemma_ds_wf_ordered(e);
    let t = e.skip(1);
    assert(forall|i: int| 0 <= i < t.len() ==> t[i] == e[i + 1]);
    if ds_contains(t, cl, c) {
        let j = choose|j: int| 0 <= j < t.len() && (#[trigger] t[j]).0 == cl && rl_contains(t[j].1, c);
        assert(e[j + 1].0 == cl && rl_contains(e[j + 1].1, c));
        assert(e[0].0 < e[j + 1].0);
    }
    if ds_contains(e, cl, c) && cl != e[0].0 {
        let j = choose|j: int| 0 <= j < e.len() && (#[trigger] e[j]).0 == cl && rl_contains(e[j].1, c);
        assert(j != 0);
        assert(t[j - 1].0 == cl && rl_contains(t[j - 1].1, c));
    }
}

} // verus!
