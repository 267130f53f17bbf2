//! Variable-length integer codec shared by every binary format of the crate.
//!
//! A value is stored little-endian in groups of seven bits; every byte except
//! the last carries a continuation flag in its highest bit. The decoder is
//! strict: it accepts exactly the byte strings the encoder produces, so a
//! decoded value always re-encodes to the bytes it came from.

use vstd::prelude::*;
use vstd::arithmetic::div_mod::lemma_fundamental_div_mod;

verus! {

/// The variable-length encoding of `x`.
pub open spec fn venc(x: nat) -> Seq<u8>
    decreases x,
{
    if x < 128 {
        seq![x as u8]
    } else {
        seq![(x % 128 + 128) as u8] + venc(x / 128)
    }
}

/// Strict decode of a variable-length integer from the front of `s`:
/// the value and the number of bytes consumed, or `None` when no canonical
/// encoding of a 64-bit value starts `s`.
pub open spec fn vdec(s: Seq<u8>) -> Option<(nat, int)>
    decreases s.len(),
{
    if s.len() == 0 {
        None
    } else {
        let b = s[0];
        if b < 128 {
            Some((b as nat, 1))
        } else {
            match vdec(s.skip(1)) {
                None => None,
                Some((v, n)) => {
                    if 1 <= v && v * 128 + (b - 128) <= u64::MAX {
                        Some(((v * 128 + (b - 128)) as nat, n + 1))
                    } else {
                        None
                    }
                },
            }
        }
    }
}

/// `128^k`, used only to bound encoding lengths.
pub open spec fn pow128(k: nat) -> nat
    decreases k,
{
    if k == 0 {
        1
    } else {
        128 * pow128((k - 1) as nat)
    }
}

proof fn lemma_pow128_10()
    ensures
        pow128(10) > u64::MAX,
{
    reveal_with_fuel(pow128, 11);
}

/// Decoding inverts encoding, whatever follows the encoded bytes.
pub proof fn lemma_varint_roundtrip(x: nat, rest: Seq<u8>)
    requires
        x <= u64::MAX,
    ensures
        vdec(venc(x) + rest) == Some((x, venc(x).len() as int)),
    decreases x,
{
    let s = venc(x) + rest;
    if x < 128 {
        assert(s[0] == x as u8);
        assert(s[0] < 128);
    } else {
        let b = (x % 128 + 128) as u8;
        assert(s[0] == b);
        assert(b >= 128);
        lemma_varint_roundtrip(x / 128, rest);
        assert(s.skip(1) =~= venc(x / 128) + rest);
        assert(x / 128 >= 1);
        assert((x / 128) * 128 + (x % 128) == x) by {
            lemma_fundamental_div_mod(x as int, 128);
        }
        assert(b - 128 == x % 128);
    }
}

/// Every byte a decode consumes, except the last, carries the continuation
/// flag.
proof fn lemma_vdec_cont(s: Seq<u8>)
    ensures
        vdec(s) matches Some(p) ==> forall|i: int| 0 <= i < p.1 - 1 ==> s[i] >= 128,
    decreases s.len(),
{
    if s.len() > 0 && s[0] >= 128 {
        lemma_vdec_cont(s.skip(1));
        lemma_vdec_le_max(s.skip(1));
        if vdec(s) is Some {
            let (v, n) = vdec(s).unwrap();
            let (v1, n1) = vdec(s.skip(1)).unwrap();
            assert(n == n1 + 1);
            assert forall|i: int| 0 <= i < n - 1 implies s[i] >= 128 by {
                if i > 0 {
                    assert(0 <= i - 1 < n1 - 1);
                    assert(s.skip(1)[i - 1] >= 128);
                    assert(s.skip(1)[i - 1] == s[i]);
                }
            }
        }
    }
}

/// A decode whose first `k` bytes all carry the continuation flag and which
/// consumes more than `k` bytes yields a value of at least `128^k`.
proof fn lemma_vdec_min(s: Seq<u8>, k: nat)
    requires
        k >= 1,
        forall|i: int| 0 <= i < k && i < s.len() ==> s[i] >= 128,
    ensures
        vdec(s) matches Some(p) ==> (p.1 > k ==> p.0 >= pow128(k)),
    decreases k,
{
    if s.len() > 0 && vdec(s) is Some {
        let b = s[0];
        let (v0, n0) = vdec(s).unwrap();
        if n0 > k {
            assert(b >= 128);
            let (v, n) = vdec(s.skip(1)).unwrap();
            assert(v0 == v * 128 + (b - 128) && n0 == n + 1);
            if k == 1 {
                assert(v >= 1);
                assert(v * 128 >= 128) by (nonlinear_arith)
                    requires
                        v >= 1,
                ;
            } else {
                assert(forall|i: int|
                    0 <= i < k - 1 && i < s.skip(1).len() ==> s.skip(1)[i] >= 128);
                lemma_vdec_min(s.skip(1), (k - 1) as nat);
                assert(v >= pow128((k - 1) as nat));
                assert(v * 128 >= pow128((k - 1) as nat) * 128) by (nonlinear_arith)
                    requires
                        v >= pow128((k - 1) as nat),
                ;
                assert(pow128(k) == 128 * pow128((k - 1) as nat));
            }
        }
    }
}

/// Appends the encoding of `x` to `out`.
pub fn varint_write(out: &mut Vec<u8>, x: u64)
    ensures
        final(out)@ == old(out)@ + venc(x as nat),
    decreases x,
{
    if x < 128 {
        out.push(x as u8);
        assert(out@ =~= old(out)@ + venc(x as nat));
    } else {
        let b = (x % 128 + 128) as u8;
        out.push(b);
        varint_write(out, x / 128);
        assert(out@ =~= old(out)@ + venc(x as nat));
    }
}

/// Reads one variable-length integer starting at `pos`, spending at most
/// `fuel` bytes.
fn varint_read_fuel(s: &[u8], pos: usize, fuel: u8) -> (r: Option<(u64, usize)>)
    requires
        pos <= s@.len(),
    ensures
        match r {
            Some((v, n)) => {
                &&& vdec(s@.skip(pos as int)) == Some((v as nat, n as int))
                &&& 1 <= n <= fuel
                &&& pos + n <= s@.len()
            },
            None => vdec(s@.skip(pos as int)) matches Some(p) ==> p.1 > fuel,
        },
    decreases fuel,
{
    proof {
        lemma_vdec_le_max(s@.skip(pos as int));
    }
    if fuel == 0 {
        return None;
    }
    if pos >= s.len() {
        return None;
    }
    let b = s[pos];
    if b < 128 {
        assert(s@.skip(pos as int)[0] == b);
        return Some((b as u64, 1));
    }
    assert(s@.skip(pos as int)[0] == b);
    assert(s@.skip(pos as int).skip(1) =~= s@.skip(pos as int + 1));
    match varint_read_fuel(s, pos + 1, fuel - 1) {
        None => None,
        Some((v, n)) => {
            if v == 0 {
                return None;
            }
            let total: u128 = (v as u128) * 128 + ((b - 128) as u128);
            if total > u64::MAX as u128 {
                return None;
            }
            Some((total as u64, n + 1))
        },
    }
}

/// Reads one variable-length integer starting at `pos`.
pub fn varint_read(s: &[u8], pos: usize) -> (r: Option<(u64, usize)>)
    requires
        pos <= s@.len(),
    ensures
        match r {
            Some((v, n)) => {
                &&& vdec(s@.skip(pos as int)) == Some((v as nat, n as int))
                &&& 1 <= n <= 10
                &&& pos + n <= s@.len()
            },
            None => vdec(s@.skip(pos as int)) is None,
        },
{
    let r = varint_read_fuel(s, pos, 10);
    proof {
        if r is None {
            let t = s@.skip(pos as int);
            if vdec(t) is Some {
                let (v, n) = vdec(t).unwrap();
                assert(n > 10);
                lemma_vdec_le_max(t);
                lemma_vdec_cont(t);
                lemma_vdec_min(t, 10);
                lemma_pow128_10();
            }
        }
    }
    r
}

/// Every decoded value fits in 64 bits, and at least `n` bytes exist.
proof fn lemma_vdec_le_max(s: Seq<u8>)
    ensures
        vdec(s) matches Some(p) ==> p.0 <= u64::MAX && 1 <= p.1 <= s.len(),
    decreases s.len(),
{
    if s.len() > 0 && s[0] >= 128 {
        lemma_vdec_le_max(s.skip(1));
    }
}

} // verus!
