//! The JSON form of delete sets: `{"<client>": [[start, end], ...], ...}`
//! with clients in ascending order, so equal sets serialize identically.

use vstd::prelude::*;
use crate::delete_set::{DeleteSet, DsModel};

verus! {

/// Relies on `String::push`: appends the given character to the end of
/// the string.
pub assume_specification[ String::push ](s: &mut String, c: char)
    ensures
        final(s)@ == old(s)@.push(c),
;

/// Relies on `String::push_str`: appends the given string slice to the end
/// of the string.
pub assume_specification[ String::push_str ](s: &mut String, other: &str)
    ensures
        final(s)@ == old(s)@ + other@,
;

/// The character for one decimal digit.
pub open spec fn dec_digit(d: nat) -> char {
    if d == 0 {
        '0'
    } else if d == 1 {
        '1'
    } else if d == 2 {
        '2'
    } else if d == 3 {
        '3'
    } else if d == 4 {
        '4'
    } else if d == 5 {
        '5'
    } else if d == 6 {
        '6'
    } else if d == 7 {
        '7'
    } else if d == 8 {
        '8'
    } else {
        '9'
    }
}

/// The decimal representation of `n`, most significant digit first.
pub open spec fn dec_str(n: nat) -> Seq<char>
    decreases n,
{
    if n < 10 {
        seq![dec_digit(n)]
    } else {
        dec_str(n / 10) + seq![dec_digit(n % 10)]
    }
}

/// One range as JSON: `[start,end]`.
pub open spec fn json_range(r: (u32, u32)) -> Seq<char> {
    seq!['['] + dec_str(r.0 as nat) + seq![','] + dec_str(r.1 as nat) + seq![']']
}

/// The comma-separated continuation of a range list.
pub open spec fn json_ranges_rest(rs: Seq<(u32, u32)>) -> Seq<char>
    decreases rs.len(),
{
    if rs.len() == 0 {
        Seq::empty()
    } else {
        seq![','] + json_range(rs[0]) + json_ranges_rest(rs.skip(1))
    }
}

/// The elements of a range list, comma-separated.
pub open spec fn json_ranges_body(rs: Seq<(u32, u32)>) -> Seq<char> {
    if rs.len() == 0 {
        Seq::empty()
    } else {
        json_range(rs[0]) + json_ranges_rest(rs.skip(1))
    }
}

/// A range list as JSON: `[[start,end],...]`.
pub open spec fn json_ranges(rs: Seq<(u32, u32)>) -> Seq<char> {
    seq!['['] + json_ranges_body(rs) + seq![']']
}

/// One delete-set entry as JSON: `"client":[[start,end],...]`.
pub open spec fn json_entry(e: (u64, Seq<(u32, u32)>)) -> Seq<char> {
    seq!['"'] + dec_str(e.0 as nat) + seq!['"', ':'] + json_ranges(e.1)
}

/// The comma-separated continuation of an entry list.
pub open spec fn json_entries_rest(es: DsModel) -> Seq<char>
    decreases es.len(),
{
    if es.len() == 0 {
        Seq::empty()
    } else {
        seq![','] + json_entry(es[0]) + json_entries_rest(es.skip(1))
    }
}

/// The elements of an entry list, comma-separated.
pub open spec fn json_entries_body(es: DsModel) -> Seq<char> {
    if es.len() == 0 {
        Seq::empty()
    } else {
        json_entry(es[0]) + json_entries_rest(es.skip(1))
    }
}

/// A delete set as JSON: `{"client":[[start,end],...],...}`.
pub open spec fn json_ds(es: DsModel) -> Seq<char> {
    seq!['{'] + json_entries_body(es) + seq!['}']
}

/// Appending a range appends `,[start,end]` to a non-empty body, or starts
/// the body.
pub proof fn lemma_json_ranges_rest_push(rs: Seq<(u32, u32)>, x: (u32, u32))
    ensures
        json_ranges_rest(rs.push(x)) == json_ranges_rest(rs) + (seq![','] + json_range(x)),
    decreases rs.len(),
{
    if rs.len() == 0 {
        reveal_with_fuel(json_ranges_rest, 2);
        assert(rs.push(x)[0] == x);
        assert(rs.push(x).skip(1) =~= Seq::<(u32, u32)>::empty());
        assert(json_ranges_rest(rs.push(x)) =~= seq![','] + json_range(x));
        assert(json_ranges_rest(rs) + (seq![','] + json_range(x)) =~= seq![','] + json_range(x));
    } else {
        assert(rs.push(x).skip(1) =~= rs.skip(1).push(x));
        lemma_json_ranges_rest_push(rs.skip(1), x);
        assert(rs.push(x)[0] == rs[0]);
        assert(seq![','] + json_range(rs[0]) + (json_ranges_rest(rs.skip(1)) + (seq![',']
            + json_range(x))) =~= (seq![','] + json_range(rs[0]) + json_ranges_rest(rs.skip(1)))
            + (seq![','] + json_range(x)));
    }
}

/// The same step at the body level.
pub proof fn lemma_json_ranges_body_push(rs: Seq<(u32, u32)>, x: (u32, u32))
    ensures
        json_ranges_body(rs.push(x)) == if rs.len() == 0 {
            json_range(x)
        } else {
            json_ranges_body(rs) + (seq![','] + json_range(x))
        },
{
    if rs.len() == 0 {
        assert(rs.push(x)[0] == x);
        assert(rs.push(x).skip(1) =~= Seq::<(u32, u32)>::empty());
        assert(json_range(x) + Seq::<char>::empty() =~= json_range(x));
    } else {
        assert(rs.push(x)[0] == rs[0]);
        assert(rs.push(x).skip(1) =~= rs.skip(1).push(x));
        lemma_json_ranges_rest_push(rs.skip(1), x);
        assert(json_range(rs[0]) + (json_ranges_rest(rs.skip(1)) + (seq![','] + json_range(x)))
            =~= (json_range(rs[0]) + json_ranges_rest(rs.skip(1))) + (seq![','] + json_range(x)));
    }
}

/// Appending an entry appends `,"client":[...]` to a non-empty body, or
/// starts the body.
pub proof fn lemma_json_entries_rest_push(es: DsModel, x: (u64, Seq<(u32, u32)>))
    ensures
        json_entries_rest(es.push(x)) == json_entries_rest(es) + (seq![','] + json_entry(x)),
    decreases es.len(),
{
    if es.len() == 0 {
        reveal_with_fuel(json_entries_rest, 2);
        assert(es.push(x)[0] == x);
        assert(es.push(x).skip(1) =~= Seq::<(u64, Seq<(u32, u32)>)>::empty());
        assert(json_entries_rest(es.push(x)) =~= seq![','] + json_entry(x));
        assert(json_entries_rest(es) + (seq![','] + json_entry(x)) =~= seq![','] + json_entry(x));
    } else {
        assert(es.push(x).skip(1) =~= es.skip(1).push(x));
        lemma_json_entries_rest_push(es.skip(1), x);
        assert(es.push(x)[0] == es[0]);
        assert(seq![','] + json_entry(es[0]) + (json_entries_rest(es.skip(1)) + (seq![',']
            + json_entry(x))) =~= (seq![','] + json_entry(es[0]) + json_entries_rest(es.skip(1)))
            + (seq![','] + json_entry(x)));
    }
}

/// The same step at the body level.
pub proof fn lemma_json_entries_body_push(es: DsModel, x: (u64, Seq<(u32, u32)>))
    ensures
        json_entries_body(es.push(x)) == if es.len() == 0 {
            json_entry(x)
        } else {
            json_entries_body(es) + (seq![','] + json_entry(x))
        },
{
    if es.len() == 0 {
        assert(es.push(x)[0] == x);
        assert(es.push(x).skip(1) =~= Seq::<(u64, Seq<(u32, u32)>)>::empty());
        assert(json_entry(x) + Seq::<char>::empty() =~= json_entry(x));
    } else {
        assert(es.push(x)[0] == es[0]);
        assert(es.push(x).skip(1) =~= es.skip(1).push(x));
        lemma_json_entries_rest_push(es.skip(1), x);
        assert(json_entry(es[0]) + (json_entries_rest(es.skip(1)) + (seq![','] + json_entry(x)))
            =~= (json_entry(es[0]) + json_entries_rest(es.skip(1))) + (seq![','] + json_entry(x)));
    }
}

/// The character for digit `d`.
pub fn digit_char(d: u64) -> (r: char)
    requires
        d < 10,
    ensures
        r == dec_digit(d as nat),
{
    match d {
        0 => '0',
        1 => '1',
        2 => '2',
        3 => '3',
        4 => '4',
        5 => '5',
        6 => '6',
        7 => '7',
        8 => '8',
        _ => '9',
    }
}

/// Appends the decimal representation of `n` to `out`.
pub fn push_decimal(out: &mut String, n: u64)
    ensures
        final(out)@ == old(out)@ + dec_str(n as nat),
    decreases n,
{
    if n < 10 {
        out.push(digit_char(n));
        assert(out@ =~= old(out)@ + dec_str(n as nat));
    } else {
        push_decimal(out, n / 10);
        out.push(digit_char(n % 10));
        assert(out@ =~= old(out)@ + dec_str(n as nat));
    }
}

/// Appends `[start,end]` to `out`.
fn push_json_range(out: &mut String, r: (u32, u32))
    ensures
        final(out)@ == old(out)@ + json_range(r),
{
    out.push('[');
    push_decimal(out, r.0 as u64);
    out.push(',');
    push_decimal(out, r.1 as u64);
    out.push(']');
    assert(out@ =~= old(out)@ + json_range(r));
}

impl DeleteSet {
    /// This delete set in its JSON form, clients in ascending order.
    pub fn to_json_string(&self) -> (r: String)
        ensures
            r@ == json_ds(self@),
    {
        let mut out = String::new();
        self.append_json(&mut out);
        proof {
            assert(Seq::<char>::empty() + json_ds(self@) =~= json_ds(self@));
        }
        out
    }

    /// Appends the JSON form of the entry at position `i` to `out`.
    #[verifier::rlimit(100)]
    fn append_entry_json(&self, i: usize, out: &mut String)
        requires
            i < self@.len(),
        ensures
            final(out)@ == old(out)@ + json_entry(self@[i as int]),
    {
        out.push('"');
        push_decimal(out, self.client_at(i));
        out.push('"');
        out.push(':');
        out.push('[');
        let m = self.range_count(i);
        let ghost rsv = self@[i as int].1;
        let ghost mid = out@;
        let mut k: usize = 0;
        #[verifier::rlimit(100)]
        while k < m
            invariant
                i < self@.len(),
                m == self@[i as int].1.len(),
                rsv == self@[i as int].1,
                k <= m,
                out@ == mid + json_ranges_body(rsv.take(k as int)),
            decreases m - k,
        {
            if k > 0 {
                out.push(',');
            }
            push_json_range(out, self.range_at(i, k));
            proof {
                lemma_json_ranges_body_push(rsv.take(k as int), rsv[k as int]);
                assert(rsv.take(k as int).push(rsv[k as int]) =~= rsv.take(k as int + 1));
                assert(out@ =~= mid + json_ranges_body(rsv.take(k as int + 1)));
            }
            k = k + 1;
        }
        out.push(']');
        proof {
            assert(rsv.take(m as int) =~= rsv);
            assert(out@ =~= old(out)@ + json_entry(self@[i as int]));
        }
    }

    /// Appends this delete set's JSON form to `out`.
    #[verifier::rlimit(100)]
    pub fn append_json(&self, out: &mut String)
        ensures
            final(out)@ == old(out)@ + json_ds(self@),
    {
        out.push('{');
        let n = self.client_count();
        let mut i: usize = 0;
        #[verifier::rlimit(100)]
        while i < n
            invariant
                n == self@.len(),
                i <= n,
                out@ == old(out)@ + seq!['{'] + json_entries_body(self@.take(i as int)),
            decreases n - i,
        {
            if i > 0 {
                out.push(',');
            }
            self.append_entry_json(i, out);
            proof {
                lemma_json_entries_body_push(self@.take(i as int), self@[i as int]);
                assert(self@.take(i as int).push(self@[i as int]) =~= self@.take(i as int + 1));
                assert(out@ =~= old(out)@ + seq!['{'] + json_entries_body(
                    self@.take(i as int + 1),
                ));
            }
            i = i + 1;
        }
        out.push('}');
        proof {
            assert(self@.take(n as int) =~= self@);
            assert(out@ =~= old(out)@ + json_ds(self@));
        }
    }
}

} // verus!
