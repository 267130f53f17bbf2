//! State vectors: per-client next-expected-clock summaries of causal
//! knowledge.
//!
//! Entries are kept in ascending client order and a client is listed only
//! with a non-zero clock, so equal causal states compare equal as values.

use vstd::prelude::*;
use vstd::pervasive::VecAdditionalExecFns;

verus! {

/// The mathematical content of a state vector.
pub type SvModel = Seq<(u64, u32)>;

/// Every client of the state vector fits the engine's identifier space.
pub open spec fn sv_clients_fit(es: SvModel) -> bool {
    forall|i: int| 0 <= i < es.len() ==> crate::engine::fits_client_id((#[trigger] es[i]).0)
}

/// Canonical form: clients strictly ascending, no zero clocks.
pub open spec fn sv_wf(e: SvModel) -> bool {
    &&& forall|i: int| 0 <= i < e.len() ==> (#[trigger] e[i]).1 >= 1
    &&& forall|i: int| 0 <= i < e.len() - 1 ==> (#[trigger] e[i]).0 < e[i + 1].0
}

/// Is some clock recorded for `client`?
pub open spec fn sv_has(e: SvModel, client: u64) -> bool {
    exists|i: int| 0 <= i < e.len() && (#[trigger] e[i]).0 == client
}

/// The clock recorded for `client`, zero when absent.
pub open spec fn sv_get(e: SvModel, client: u64) -> int {
    if sv_has(e, client) {
        e[choose|i: int| 0 <= i < e.len() && (#[trigger] e[i]).0 == client].1 as int
    } else {
        0
    }
}

/// In a canonical state vector the clients are pairwise ascending.
pub proof fn lemma_sv_wf_ordered(e: SvModel)
    requires
        sv_wf(e),
    ensures
        forall|i: int, j: int| 0 <= i < j < e.len() ==> (#[trigger] e[i]).0 < (#[trigger] e[j]).0,
{
    assert forall|i: int, j: int| 0 <= i < j < e.len() implies (#[trigger] e[i]).0 < (
    #[trigger] e[j]).0 by {
        lemma_sv_wf_ordered_step(e, i, j);
    }
}

proof fn lemma_sv_wf_ordered_step(e: SvModel, i: int, j: int)
    requires
        sv_wf(e),
        0 <= i < j < e.len(),
    ensures
        e[i].0 < e[j].0,
    decreases j - i,
{
    if j > i + 1 {
        lemma_sv_wf_ordered_step(e, i, j - 1);
    }
}

/// An entry's index pins down the recorded clock of its client.
pub proof fn lemma_sv_get_at(e: SvModel, i: int)
    requires
        sv_wf(e),
        0 <= i < e.len(),
    ensures
        sv_has(e, e[i].0),
        sv_get(e, e[i].0) == e[i].1 as int,
{
    lemma_sv_wf_ordered(e);
    assert(sv_has(e, e[i].0));
    let w = choose|w: int| 0 <= w < e.len() && (#[trigger] e[w]).0 == e[i].0;
    assert(w == i);
}

/// Per-client causal knowledge: maps each client to the next clock this
/// replica expects from it.
pub struct StateVector {
    entries: Vec<(u64, u32)>,
}

impl View for StateVector {
    type V = SvModel;

    closed spec fn view(&self) -> SvModel {
        self.entries@
    }
}

impl StateVector {
    /// A state vector with no knowledge of any client.
    pub fn new() -> (r: StateVector)
        ensures
            r@ == Seq::<(u64, u32)>::empty(),
            sv_wf(r@),
    {
        let r = StateVector { entries: Vec::new() };
        proof {
            assert(r@ =~= Seq::<(u64, u32)>::empty());
        }
        r
    }

    /// Nothing is recorded.
    pub fn is_empty(&self) -> (r: bool)
        ensures
            r == (self@.len() == 0),
    {
        self.entries.len() == 0
    }

    /// The number of clients with a recorded clock.
    pub fn client_count(&self) -> (r: usize)
        ensures
            r == self@.len(),
    {
        self.entries.len()
    }

    /// The entry at position `i`.
    pub fn entry_at(&self, i: usize) -> (r: (u64, u32))
        requires
            i < self@.len(),
        ensures
            r == self@[i as int],
    {
        self.entries[i]
    }

    /// The clock recorded for `client`, zero when the client is unknown.
    #[verifier::rlimit(50)]
    pub fn get(&self, client: u64) -> (r: u32)
        requires
            sv_wf(self@),
        ensures
            r as int == sv_get(self@, client),
    {
        let n = self.entries.len();
        let mut i: usize = 0;
        while i < n
            invariant
                n == self@.len(),
                i <= n,
                sv_wf(self@),
                forall|j: int| 0 <= j < i ==> (#[trigger] self@[j]).0 != client,
            decreases n - i,
        {
            let (c, k) = self.entries[i];
            if c == client {
                proof {
                    lemma_sv_get_at(self@, i as int);
                }
                return k;
            }
            i = i + 1;
        }
        proof {
            assert(!sv_has(self@, client));
        }
        0
    }

    /// Appends an entry whose client is above every recorded one; used by
    /// decoding, which visits clients in ascending order.
    pub fn push_entry(&mut self, client: u64, clock: u32)
        requires
            sv_wf(old(self)@),
            clock >= 1,
            old(self)@.len() > 0 ==> client > old(self)@[old(self)@.len() - 1].0,
        ensures
            final(self)@ == old(self)@.push((client, clock)),
            sv_wf(final(self)@),
    {
        let ghost pre = self@;
        self.entries.push((client, clock));
        proof {
            assert(self@ =~= pre.push((client, clock)));
            assert(sv_wf(self@)) by {
                assert(forall|j: int| 0 <= j < pre.len() ==> self@[j] == pre[j]);
                assert(self@[self@.len() - 1] == (client, clock));
            }
        }
    }

    /// Raises the clock recorded for `client` to at least `clock`; other
    /// clients are untouched. Recording a zero clock changes nothing.
    pub fn set_max(&mut self, client: u64, clock: u32)
        requires
            sv_wf(old(self)@),
        ensures
            sv_wf(final(self)@),
            sv_get(final(self)@, client) == if clock as int > sv_get(old(self)@, client) {
                clock as int
            } else {
                sv_get(old(self)@, client)
            },
            forall|cl: u64|
                cl != client ==> #[trigger] sv_get(final(self)@, cl) == sv_get(old(self)@, cl),
    {
        let n = self.entries.len();
        let ghost pre = self@;
        let mut i: usize = 0;
        while i < n && self.entries[i].0 < client
            invariant
                self == old(self),
                pre == self@,
                n == self@.len(),
                i <= n,
                sv_wf(self@),
                forall|j: int| 0 <= j < i ==> (#[trigger] self@[j]).0 < client,
            decreases n - i,
        {
            i = i + 1;
        }
        let ghost i1 = i as int;
        if i < n && self.entries[i].0 == client {
            let (_, old_clock) = self.entries[i];
            proof {
                lemma_sv_get_at(pre, i1);
            }
            if clock > old_clock {
                self.entries.set(i, (client, clock));
                proof {
                    assert(self@ =~= pre.update(i1, (client, clock)));
                    lemma_sv_update(pre, self@, i1, client, clock);
                }
            }
        } else if clock >= 1 {
            self.entries.insert(i, (client, clock));
            proof {
                assert(self@ =~= pre.insert(i1, (client, clock)));
                assert(!sv_has(pre, client)) by {
                    lemma_sv_wf_ordered(pre);
                    if sv_has(pre, client) {
                        let w = choose|w: int|
                            0 <= w < pre.len() && (#[trigger] pre[w]).0 == client;
                        if w < i1 {
                            assert(pre[w].0 < client);
                        } else {
                            assert(pre[i1].0 > client || i1 == pre.len());
                        }
                    }
                }
                lemma_sv_insert(pre, self@, i1, client, clock);
            }
        } else {
            proof {
                assert(!sv_has(pre, client)) by {
                    lemma_sv_wf_ordered(pre);
                    if sv_has(pre, client) {
                        let w = choose|w: int|
                            0 <= w < pre.len() && (#[trigger] pre[w]).0 == client;
                        if w < i1 {
                            assert(pre[w].0 < client);
                        }
                    }
                }
            }
        }
    }
}

/// Raising one client's clock in place leaves every other client's view
/// unchanged.
proof fn lemma_sv_update(pre: SvModel, full: SvModel, i1: int, client: u64, clock: u32)
    requires
        sv_wf(pre),
        0 <= i1 < pre.len(),
        pre[i1].0 == client,
        clock >= 1,
        full =~= pre.update(i1, (client, clock)),
    ensures
        sv_wf(full),
        sv_get(full, client) == clock as int,
        forall|cl: u64| cl != client ==> #[trigger] sv_get(full, cl) == sv_get(pre, cl),
{
    assert(full.len() == pre.len());
    assert(forall|j: int| 0 <= j < full.len() && j != i1 ==> full[j] == pre[j]);
    assert(sv_wf(full));
    lemma_sv_get_at(full, i1);
    assert forall|cl: u64| cl != client implies #[trigger] sv_get(full, cl) == sv_get(pre, cl) by {
        if sv_has(pre, cl) {
            let w = choose|w: int| 0 <= w < pre.len() && (#[trigger] pre[w]).0 == cl;
            assert(w != i1);
            assert(full[w].0 == cl);
            lemma_sv_get_at(pre, w);
            lemma_sv_get_at(full, w);
        } else {
            assert(!sv_has(full, cl)) by {
                if sv_has(full, cl) {
                    let w = choose|w: int| 0 <= w < full.len() && (#[trigger] full[w]).0 == cl;
                    assert(w != i1);
                    assert(pre[w].0 == cl);
                }
            }
        }
    }
}

/// Inserting a fresh client entry leaves every other client's view
/// unchanged.
proof fn lemma_sv_insert(pre: SvModel, full: SvModel, i1: int, client: u64, clock: u32)
    requires
        sv_wf(pre),
        0 <= i1 <= pre.len(),
        forall|j: int| 0 <= j < i1 ==> (#[trigger] pre[j]).0 < client,
        i1 < pre.len() ==> pre[i1].0 > client,
        clock >= 1,
        full =~= pre.insert(i1, (client, clock)),
    ensures
        sv_wf(full),
        sv_get(full, client) == clock as int,
        forall|cl: u64| cl != client ==> #[trigger] sv_get(full, cl) == sv_get(pre, cl),
{
    assert(full.len() == pre.len() + 1);
    assert(forall|j: int| 0 <= j < i1 ==> #[trigger] full[j] == pre[j]);
    assert(full[i1] == (client, clock));
    assert(forall|j: int| i1 < j < full.len() ==> #[trigger] full[j] == pre[j - 1]);
    assert(sv_wf(full)) by {
        assert forall|j: int| 0 <= j < full.len() - 1 implies (#[trigger] full[j]).0 < full[j
            + 1].0 by {
            if j == i1 - 1 {
                assert(full[j].0 == pre[j].0);
            } else if j == i1 {
                assert(full[j + 1].0 == pre[j].0);
            }
        }
    }
    lemma_sv_get_at(full, i1);
    lemma_sv_wf_ordered(pre);
    assert forall|cl: u64| cl != client implies #[trigger] sv_get(full, cl) == sv_get(pre, cl) by {
        if sv_has(pre, cl) {
            let w = choose|w: int| 0 <= w < pre.len() && (#[trigger] pre[w]).0 == cl;
            lemma_sv_get_at(pre, w);
            if w < i1 {
                assert(full[w].0 == cl);
                lemma_sv_get_at(full, w);
            } else {
                assert(full[w + 1].0 == cl);
                lemma_sv_get_at(full, w + 1);
            }
        } else {
            assert(!sv_has(full, cl)) by {
                if sv_has(full, cl) {
                    let w = choose|w: int| 0 <= w < full.len() && (#[trigger] full[w]).0 == cl;
                    if w < i1 {
                        assert(pre[w].0 == cl);
                    } else if w > i1 {
                        assert(pre[w - 1].0 == cl);
                    }
                }
            }
        }
    }
}

} // verus!

verus! {

/// The largest clock recorded for `cl` among the pairs of `s`, zero when
/// none is.
pub open spec fn pairs_max(s: Seq<(u64, u32)>, cl: u64) -> int
    decreases s.len(),
{
    if s.len() == 0 {
        0
    } else {
        let rest = pairs_max(s.drop_last(), cl);
        let own: int = if s.last().0 == cl {
            s.last().1 as int
        } else {
            0
        };
        if own > rest {
            own
        } else {
            rest
        }
    }
}

/// A positive recorded maximum comes from some pair of that client.
pub proof fn lemma_pairs_max_client_present(s: Seq<(u64, u32)>, cl: u64)
    requires
        pairs_max(s, cl) > 0,
    ensures
        exists|j: int| 0 <= j < s.len() && (#[trigger] s[j]).0 == cl,
    decreases s.len(),
{
    if s.len() > 0 {
        if s.last().0 == cl {
            assert(s[s.len() - 1].0 == cl);
        } else {
            lemma_pairs_max_client_present(s.drop_last(), cl);
            let j = choose|j: int|
                0 <= j < s.drop_last().len() && (#[trigger] s.drop_last()[j]).0 == cl;
            assert(s[j].0 == cl);
        }
    }
}

impl StateVector {
    /// Builds a canonical state vector from client-clock pairs in any
    /// order, keeping the largest clock reported for each client and
    /// dropping zero clocks.
    pub fn from_pairs(pairs: &Vec<(u64, u32)>) -> (r: StateVector)
        ensures
            sv_wf(r@),
            forall|cl: u64| #[trigger] sv_get(r@, cl) == pairs_max(pairs@, cl),
    {
        let mut sv = StateVector::new();
        let n = pairs.len();
        let mut i: usize = 0;
        while i < n
            invariant
                n == pairs@.len(),
                i <= n,
                sv_wf(sv@),
                forall|cl: u64| #[trigger] sv_get(sv@, cl) == pairs_max(pairs@.take(i as int), cl),
            decreases n - i,
        {
            let (cl, ck) = pairs[i];
            sv.set_max(cl, ck);
            proof {
                assert forall|c: u64| #[trigger]
                    sv_get(sv@, c) == pairs_max(pairs@.take(i as int + 1), c) by {
                    assert(pairs@.take(i as int + 1).drop_last() =~= pairs@.take(i as int));
                    assert(pairs@.take(i as int + 1).last() == pairs@[i as int]);
                }
            }
            i = i + 1;
        }
        proof {
            assert(pairs@.take(n as int) =~= pairs@);
        }
        sv
    }
}

} // verus!

verus! {

impl StateVector {
    /// The entries as a plain vector of pairs.
    pub fn to_pairs(&self) -> (r: Vec<(u64, u32)>)
        ensures
            r@ == self@,
    {
        let n = self.client_count();
        let mut out: Vec<(u64, u32)> = Vec::new();
        let mut i: usize = 0;
        while i < n
            invariant
                n == self@.len(),
                i <= n,
                out@ =~= self@.take(i as int),
            decreases n - i,
        {
            out.push(self.entry_at(i));
            i = i + 1;
            assert(out@ =~= self@.take(i as int));
        }
        proof {
            assert(self@.take(n as int) =~= self@);
        }
        out
    }

    /// Whether every recorded client fits the engine's identifier space.
    pub fn clients_fit(&self) -> (r: bool)
        ensures
            r == sv_clients_fit(self@),
    {
        let n = self.client_count();
        let mut i: usize = 0;
        while i < n
            invariant
                n == self@.len(),
                i <= n,
                forall|j: int|
                    0 <= j < i ==> crate::engine::fits_client_id((#[trigger] self@[j]).0),
            decreases n - i,
        {
            let (c, _) = self.entry_at(i);
            if c >= 0x20000000000000 {
                return false;
            }
            i = i + 1;
        }
        true
    }
}

} // verus!

verus! {

/// Canonical form is unique: two canonical state vectors assigning every
/// client the same clock are the same value. Replicas that agree on their
/// causal knowledge therefore hold equal state vectors, and with the
/// encoder being a function of the value, identical encoded bytes.
#[verifier::rlimit(100)]
pub proof fn lemma_sv_canonical_unique(a: SvModel, b: SvModel)
    requires
        sv_wf(a),
        sv_wf(b),
        forall|cl: u64| #[trigger] sv_get(a, cl) == sv_get(b, cl),
    ensures
        a == b,
    decreases a.len(),
{
    if a.len() == 0 {
        if b.len() > 0 {
            lemma_sv_get_at(b, 0);
            assert(sv_get(a, b[0].0) == 0);
        }
        assert(a =~= b);
    } else if b.len() == 0 {
        lemma_sv_get_at(a, 0);
        assert(sv_get(b, a[0].0) == 0);
    } else {
        assert(a[0].0 == b[0].0) by {
            lemma_sv_first_client(a, b);
            lemma_sv_first_client(b, a);
        }
        assert(a[0].1 == b[0].1) by {
            lemma_sv_get_at(a, 0);
            lemma_sv_get_at(b, 0);
        }
        assert(a[0] == b[0]);
        assert(sv_wf(a.skip(1))) by {
            assert(forall|i: int| 0 <= i < a.skip(1).len() ==> a.skip(1)[i] == a[i + 1]);
        }
        assert(sv_wf(b.skip(1))) by {
            assert(forall|i: int| 0 <= i < b.skip(1).len() ==> b.skip(1)[i] == b[i + 1]);
        }
        assert forall|cl: u64| #[trigger] sv_get(a.skip(1), cl) == sv_get(b.skip(1), cl) by {
            lemma_sv_skip_get(a, cl);
            lemma_sv_skip_get(b, cl);
            if cl == a[0].0 {
            } else {
                assert(sv_get(a.skip(1), cl) == sv_get(a, cl));
                assert(sv_get(b.skip(1), cl) == sv_get(b, cl));
            }
        }
        lemma_sv_canonical_unique(a.skip(1), b.skip(1));
        assert(a =~= b) by {
            assert(forall|i: int| 1 <= i < a.len() ==> a[i] == a.skip(1)[i - 1]);
            assert(forall|i: int| 1 <= i < b.len() ==> b[i] == b.skip(1)[i - 1]);
        }
    }
}

/// `a`'s first client has a non-zero clock in `b` too, and `b` lists
/// clients in ascending order, so `b[0].0 <= a[0].0`.
proof fn lemma_sv_first_client(a: SvModel, b: SvModel)
    requires
        sv_wf(a),
        sv_wf(b),
        a.len() > 0,
        b.len() > 0,
        forall|cl: u64| #[trigger] sv_get(a, cl) == sv_get(b, cl),
    ensures
        b[0].0 <= a[0].0,
{
    lemma_sv_wf_ordered(b);
    lemma_sv_get_at(a, 0);
    assert(sv_get(b, a[0].0) >= 1);
    assert(sv_has(b, a[0].0));
    let j = choose|j: int| 0 <= j < b.len() && (#[trigger] b[j]).0 == a[0].0;
    assert(b[0].0 <= b[j].0);
}

/// Dropping a canonical state vector's first entry zeroes exactly that
/// client's clock.
proof fn lemma_sv_skip_get(e: SvModel, cl: u64)
    requires
        sv_wf(e),
        e.len() > 0,
    ensures
        cl == e[0].0 ==> sv_get(e.skip(1), cl) == 0,
        cl != e[0].0 ==> sv_get(e.skip(1), cl) == sv_get(e, cl),
{
    lemma_sv_wf_ordered(e);
    let t = e.skip(1);
    assert(forall|i: int| 0 <= i < t.len() ==> t[i] == e[i + 1]);
    assert(sv_wf(t));
    if cl == e[0].0 {
        assert(!sv_has(t, cl)) by {
            if sv_has(t, cl) {
                let j = choose|j: int| 0 <= j < t.len() && (#[trigger] t[j]).0 == cl;
                assert(e[0].0 < e[j + 1].0);
            }
        }
    } else {
        if sv_has(e, cl) {
            let j = choose|j: int| 0 <= j < e.len() && (#[trigger] e[j]).0 == cl;
            assert(j != 0);
            assert(t[j - 1].0 == cl);
            lemma_sv_get_at(e, j);
            lemma_sv_get_at(t, j - 1);
        } else {
            assert(!sv_has(t, cl)) by {
                if sv_has(t, cl) {
                    let j = choose|j: int| 0 <= j < t.len() && (#[trigger] t[j]).0 == cl;
                    assert(e[j + 1].0 == cl);
                }
            }
        }
    }
}

} // verus!

verus! {

impl StateVector {
    /// Whether two state vectors hold exactly the same entries.
    pub fn same_as(&self, other: &StateVector) -> (r: bool)
        ensures
            r == (self@ == other@),
    {
        let n = self.client_count();
        if n != other.client_count() {
            proof {
                assert(self@ != other@);
            }
            return false;
        }
        let mut i: usize = 0;
        while i < n
            invariant
                n == self@.len(),
                n == other@.len(),
                i <= n,
                forall|j: int| 0 <= j < i ==> #[trigger] self@[j] == other@[j],
            decreases n - i,
        {
            let (c1, k1) = self.entry_at(i);
            let (c2, k2) = other.entry_at(i);
            if c1 != c2 || k1 != k2 {
                proof {
                    assert(self@[i as int] != other@[i as int]);
                }
                return false;
            }
            i = i + 1;
        }
        proof {
            assert(self@ =~= other@);
        }
        true
    }
}

} // verus!
