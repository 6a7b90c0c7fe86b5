//! The wire format used by the node: little-endian integers, compact
//! length prefixes, and length-prefixed byte strings.
//!
//! Every encoder is specified by a spec-level byte sequence, and every
//! decoder both pins the bytes it consumed to that encoding and reports
//! failure exactly when no such encoding is present.

use vstd::prelude::*;

verus! {

/// Compact encoding of a `u32`: the two low bits of the first byte select
/// the width (one, two or four bytes holding `v * 4 + mode`, or a marker
/// byte followed by the four little-endian bytes of `v`).
pub open spec fn compact_u32_bytes(v: u32) -> Seq<u8> {
    if v < 64 {
        seq![(v * 4) as u8]
    } else if v < 0x4000 {
        seq![((v * 4 + 1) % 256) as u8, ((v * 4 + 1) / 256) as u8]
    } else if v < 0x4000_0000 {
        seq![
            ((v * 4 + 2) % 256) as u8,
            (((v * 4 + 2) / 0x100) % 256) as u8,
            (((v * 4 + 2) / 0x10000) % 256) as u8,
            (((v * 4 + 2) / 0x100_0000) % 256) as u8,
        ]
    } else {
        seq![
            3u8,
            (v % 256) as u8,
            ((v / 0x100) % 256) as u8,
            ((v / 0x10000) % 256) as u8,
            ((v / 0x100_0000) % 256) as u8,
        ]
    }
}

/// The eight little-endian bytes of a `u64`.
pub open spec fn u64_le_bytes(v: u64) -> Seq<u8> {
    seq![
        (v % 256) as u8,
        ((v / 0x100) % 256) as u8,
        ((v / 0x10000) % 256) as u8,
        ((v / 0x100_0000) % 256) as u8,
        ((v / 0x1_0000_0000) % 256) as u8,
        ((v / 0x100_0000_0000) % 256) as u8,
        ((v / 0x1_0000_0000_0000) % 256) as u8,
        ((v / 0x100_0000_0000_0000) % 256) as u8,
    ]
}

/// A byte string on the wire: its compact-encoded length, then its bytes.
pub open spec fn bytes_enc(b: Seq<u8>) -> Seq<u8> {
    compact_u32_bytes(b.len() as u32) + b
}

/// `t` occurs in `s` starting at `pos`.
pub open spec fn occurs_at(s: Seq<u8>, pos: int, t: Seq<u8>) -> bool {
    0 <= pos && pos + t.len() <= s.len() && s.subrange(pos, pos + t.len()) == t
}

/// Copies a byte vector.
pub fn clone_bytes(v: &Vec<u8>) -> (r: Vec<u8>)
    ensures
        r@ == v@,
{
    let mut r: Vec<u8> = Vec::new();
    let mut i: usize = 0;
    while i < v.len()
        invariant
            i <= v@.len(),
            r@ =~= v@.take(i as int),
        decreases v@.len() - i,
    {
        r.push(v[i]);
        i += 1;
        assert(r@ =~= v@.take(i as int));
    }
    assert(v@.take(v@.len() as int) =~= v@);
    r
}

pub fn encode_compact_u32(v: u32, out: &mut Vec<u8>)
    ensures
        final(out)@ == old(out)@ + compact_u32_bytes(v),
{
    if v < 64 {
        out.push((v * 4) as u8);
        assert(final(out)@ =~= old(out)@ + compact_u32_bytes(v));
    } else if v < 0x4000 {
        let n: u32 = v * 4 + 1;
        out.push((n % 256) as u8);
        out.push((n / 256) as u8);
        assert(final(out)@ =~= old(out)@ + compact_u32_bytes(v));
    } else if v < 0x4000_0000 {
        let n: u32 = v * 4 + 2;
        out.push((n % 256) as u8);
        out.push(((n / 0x100) % 256) as u8);
        out.push(((n / 0x10000) % 256) as u8);
        out.push(((n / 0x100_0000) % 256) as u8);
        assert(final(out)@ =~= old(out)@ + compact_u32_bytes(v));
    } else {
        out.push(3u8);
        out.push((v % 256) as u8);
        out.push(((v / 0x100) % 256) as u8);
        out.push(((v / 0x10000) % 256) as u8);
        out.push(((v / 0x100_0000) % 256) as u8);
        assert(final(out)@ =~= old(out)@ + compact_u32_bytes(v));
    }
}

pub fn encode_u64_le(v: u64, out: &mut Vec<u8>)
    ensures
        final(out)@ == old(out)@ + u64_le_bytes(v),
{
    out.push((v % 256) as u8);
    out.push(((v / 0x100) % 256) as u8);
    out.push(((v / 0x10000) % 256) as u8);
    out.push(((v / 0x100_0000) % 256) as u8);
    out.push(((v / 0x1_0000_0000) % 256) as u8);
    out.push(((v / 0x100_0000_0000) % 256) as u8);
    out.push(((v / 0x1_0000_0000_0000) % 256) as u8);
    out.push(((v / 0x100_0000_0000_0000) % 256) as u8);
    assert(final(out)@ =~= old(out)@ + u64_le_bytes(v));
}

pub fn encode_bytes(b: &Vec<u8>, out: &mut Vec<u8>)
    requires
        b@.len() <= u32::MAX,
    ensures
        final(out)@ == old(out)@ + bytes_enc(b@),
{
    encode_compact_u32(b.len() as u32, out);
    let ghost mid = out@;
    let mut i: usize = 0;
    while i < b.len()
        invariant
            i <= b@.len(),
            out@ == mid + b@.subrange(0, i as int),
        decreases b@.len() - i,
    {
        out.push(b[i]);
        i += 1;
        assert(out@ =~= mid + b@.subrange(0, i as int));
    }
    assert(b@.subrange(0, b@.len() as int) =~= b@);
    assert(final(out)@ =~= old(out)@ + bytes_enc(b@));
}


/// Little-endian images determine their value.
pub proof fn lemma_u64_le_bytes_injective(a: u64, b: u64)
    requires
        u64_le_bytes(a) == u64_le_bytes(b),
    ensures
        a == b,
{
    let sa = u64_le_bytes(a);
    let sb = u64_le_bytes(b);
    assert(sa[0] == sb[0] && sa[1] == sb[1] && sa[2] == sb[2] && sa[3] == sb[3] && sa[4] == sb[4]
        && sa[5] == sb[5] && sa[6] == sb[6] && sa[7] == sb[7]);
    assert((a % 256) as u8 == (b % 256) as u8 && ((a / 0x100) % 256) as u8 == ((b / 0x100) % 256) as u8
        && ((a / 0x10000) % 256) as u8 == ((b / 0x10000) % 256) as u8
        && ((a / 0x100_0000) % 256) as u8 == ((b / 0x100_0000) % 256) as u8
        && ((a / 0x1_0000_0000) % 256) as u8 == ((b / 0x1_0000_0000) % 256) as u8
        && ((a / 0x100_0000_0000) % 256) as u8 == ((b / 0x100_0000_0000) % 256) as u8
        && ((a / 0x1_0000_0000_0000) % 256) as u8 == ((b / 0x1_0000_0000_0000) % 256) as u8
        && ((a / 0x100_0000_0000_0000) % 256) as u8 == ((b / 0x100_0000_0000_0000) % 256) as u8
        ==> a == b) by (bit_vector);
}

/// Length and first-byte class of a compact encoding, by value range.
pub proof fn lemma_compact_mode(v: u32)
    ensures
        v < 64 ==> compact_u32_bytes(v).len() == 1 && (compact_u32_bytes(v)[0] as u32) % 4 == 0
            && (compact_u32_bytes(v)[0] as u32) / 4 == v,
        64 <= v < 0x4000 ==> compact_u32_bytes(v).len() == 2 && (compact_u32_bytes(v)[0] as u32) % 4
            == 1,
        0x4000 <= v < 0x4000_0000 ==> compact_u32_bytes(v).len() == 4 && (compact_u32_bytes(v)[0]
            as u32) % 4 == 2,
        0x4000_0000 <= v ==> compact_u32_bytes(v).len() == 5 && compact_u32_bytes(v)[0] == 3,
{
    if v < 64 {
        assert(((v * 4) as u8 as u32) % 4 == 0 && ((v * 4) as u8 as u32) / 4 == v) by (bit_vector)
            requires
                v < 64,
        ;
    } else if v < 0x4000 {
        assert((((v * 4 + 1) % 256) as u8 as u32) % 4 == 1) by (bit_vector)
            requires
                64 <= v < 0x4000,
        ;
    } else if v < 0x4000_0000 {
        assert((((v * 4 + 2) % 256) as u8 as u32) % 4 == 2) by (bit_vector)
            requires
                0x4000 <= v < 0x4000_0000,
        ;
    }
}


/// A four-byte little-endian sum has exactly those bytes as its digits.
proof fn lemma_le4_digits(b0: u8, b1: u8, b2: u8, b3: u8)
    ensures
        ({
            let n = b0 as int + 0x100 * (b1 as int) + 0x10000 * (b2 as int) + 0x100_0000 * (
            b3 as int);
            &&& 0 <= n < 0x1_0000_0000
            &&& n % 0x100 == b0 as int
            &&& (n / 0x100) % 0x100 == b1 as int
            &&& (n / 0x10000) % 0x100 == b2 as int
            &&& n / 0x100_0000 == b3 as int
            &&& (n / 0x100_0000) % 0x100 == b3 as int
        }),
{
    let n = b0 as int + 0x100 * (b1 as int) + 0x10000 * (b2 as int) + 0x100_0000 * (b3 as int);
    let q1 = b1 as int + 0x100 * (b2 as int) + 0x10000 * (b3 as int);
    let q2 = b2 as int + 0x100 * (b3 as int);
    vstd::arithmetic::div_mod::lemma_fundamental_div_mod_converse_mod(n, 0x100, q1, b0 as int);
    vstd::arithmetic::div_mod::lemma_fundamental_div_mod_converse_div(n, 0x100, q1, b0 as int);
    vstd::arithmetic::div_mod::lemma_fundamental_div_mod_converse_mod(q1, 0x100, q2, b1 as int);
    vstd::arithmetic::div_mod::lemma_fundamental_div_mod_converse_div(q1, 0x100, q2, b1 as int);
    vstd::arithmetic::div_mod::lemma_fundamental_div_mod_converse_mod(
        q2,
        0x100,
        b3 as int,
        b2 as int,
    );
    vstd::arithmetic::div_mod::lemma_fundamental_div_mod_converse_div(
        q2,
        0x100,
        b3 as int,
        b2 as int,
    );
    vstd::arithmetic::div_mod::lemma_div_denominator(n, 0x100, 0x100);
    vstd::arithmetic::div_mod::lemma_div_denominator(n, 0x10000, 0x100);
    vstd::arithmetic::div_mod::lemma_small_mod(b3 as nat, 0x100);
}

/// A value below `2^32` is the little-endian sum of its four digits.
proof fn lemma_le4_reconstruct(x: int)
    requires
        0 <= x < 0x1_0000_0000,
    ensures
        x == x % 0x100 + 0x100 * ((x / 0x100) % 0x100) + 0x10000 * ((x / 0x10000) % 0x100)
            + 0x100_0000 * ((x / 0x100_0000) % 0x100),
{
    vstd::arithmetic::div_mod::lemma_fundamental_div_mod(x, 0x100);
    vstd::arithmetic::div_mod::lemma_fundamental_div_mod(x / 0x100, 0x100);
    vstd::arithmetic::div_mod::lemma_div_denominator(x, 0x100, 0x100);
    vstd::arithmetic::div_mod::lemma_fundamental_div_mod(x / 0x10000, 0x100);
    vstd::arithmetic::div_mod::lemma_div_denominator(x, 0x10000, 0x100);
    vstd::arithmetic::div_mod::lemma_div_is_ordered(x, 0xFFFF_FFFF, 0x100_0000);
    vstd::arithmetic::div_mod::lemma_fundamental_div_mod_converse_div(
        0xFFFF_FFFF,
        0x100_0000,
        0xFF,
        0xFF_FFFF,
    );
    vstd::arithmetic::div_mod::lemma_div_pos_is_pos(x, 0x100_0000);
    vstd::arithmetic::div_mod::lemma_small_mod((x / 0x100_0000) as nat, 0x100);
}

/// Four little-endian digits determine a value below `2^32`.
proof fn lemma_le4_digits_determine(a: int, b: int)
    requires
        0 <= a < 0x1_0000_0000,
        0 <= b < 0x1_0000_0000,
        a % 0x100 == b % 0x100,
        (a / 0x100) % 0x100 == (b / 0x100) % 0x100,
        (a / 0x10000) % 0x100 == (b / 0x10000) % 0x100,
        (a / 0x100_0000) % 0x100 == (b / 0x100_0000) % 0x100,
    ensures
        a == b,
{
    lemma_le4_reconstruct(a);
    lemma_le4_reconstruct(b);
}

/// An integer in byte range survives the round trip through `u8`.
proof fn lemma_u8_roundtrip(d: int)
    requires
        0 <= d < 0x100,
    ensures
        (d as u8) as int == d,
{
}

/// A compact encoding occurring at a position determines its value.
pub proof fn lemma_compact_prefix_unique(s: Seq<u8>, pos: int, a: u32, b: u32)
    requires
        occurs_at(s, pos, compact_u32_bytes(a)),
        occurs_at(s, pos, compact_u32_bytes(b)),
    ensures
        a == b,
{
    let ba = compact_u32_bytes(a);
    let bb = compact_u32_bytes(b);
    lemma_compact_mode(a);
    lemma_compact_mode(b);
    assert(ba[0] == s.subrange(pos, pos + ba.len())[0]);
    assert(ba[0] == s[pos]);
    assert(bb[0] == s[pos]);
    if a < 64 && b < 64 {
        assert(a == b) by (bit_vector)
            requires
                a < 64,
                b < 64,
                (a * 4) as u8 == (b * 4) as u8,
        ;
    } else if 64 <= a < 0x4000 && 64 <= b < 0x4000 {
        assert(ba[1] == s[pos + 1] && bb[1] == s[pos + 1]);
        assert(a == b) by (bit_vector)
            requires
                64 <= a < 0x4000,
                64 <= b < 0x4000,
                ((a * 4 + 1) % 256) as u8 == ((b * 4 + 1) % 256) as u8,
                ((a * 4 + 1) / 256) as u8 == ((b * 4 + 1) / 256) as u8,
        ;
    } else if 0x4000 <= a < 0x4000_0000 && 0x4000 <= b < 0x4000_0000 {
        assert(ba[1] == s[pos + 1] && bb[1] == s[pos + 1]);
        assert(ba[2] == s[pos + 2] && bb[2] == s[pos + 2]);
        assert(ba[3] == s[pos + 3] && bb[3] == s[pos + 3]);
        let na = a * 4 + 2;
        let nb = b * 4 + 2;
        assert forall|k: int| 0 <= k < 4 implies digit_of(na, k) == digit_of(nb, k) by {
            vstd::arithmetic::div_mod::lemma_mod_bound(quot_of(na, k), 0x100);
            vstd::arithmetic::div_mod::lemma_mod_bound(quot_of(nb, k), 0x100);
            lemma_u8_roundtrip(digit_of(na, k));
            lemma_u8_roundtrip(digit_of(nb, k));
            assert(ba[k] == bb[k]);
        }
        lemma_le4_digits_determine(na, nb);
    } else if 0x4000_0000 <= a && 0x4000_0000 <= b {
        assert(ba[1] == s[pos + 1] && bb[1] == s[pos + 1]);
        assert(ba[2] == s[pos + 2] && bb[2] == s[pos + 2]);
        assert(ba[3] == s[pos + 3] && bb[3] == s[pos + 3]);
        assert(ba[4] == s[pos + 4] && bb[4] == s[pos + 4]);
        assert forall|k: int| 0 <= k < 4 implies digit_of(a as int, k) == digit_of(b as int, k) by {
            vstd::arithmetic::div_mod::lemma_mod_bound(quot_of(a as int, k), 0x100);
            vstd::arithmetic::div_mod::lemma_mod_bound(quot_of(b as int, k), 0x100);
            lemma_u8_roundtrip(digit_of(a as int, k));
            lemma_u8_roundtrip(digit_of(b as int, k));
            assert(ba[k + 1] == bb[k + 1]);
        }
        lemma_le4_digits_determine(a as int, b as int);
    } else {
        assert((ba[0] as u32) % 4 != (bb[0] as u32) % 4 || ba[0] == 3 || bb[0] == 3);
        assert(false);
    }
}

/// The `k`-th little-endian base-256 quotient of `n`.
spec fn quot_of(n: int, k: int) -> int {
    if k == 0 {
        n
    } else if k == 1 {
        n / 0x100
    } else if k == 2 {
        n / 0x10000
    } else {
        n / 0x100_0000
    }
}

/// The `k`-th little-endian base-256 digit of `n`.
spec fn digit_of(n: int, k: int) -> int {
    quot_of(n, k) % 0x100
}

/// Reads the eight little-endian bytes of a `u64`; fails exactly when
/// fewer than eight bytes remain.
pub fn decode_u64_le(bytes: &Vec<u8>, pos: usize) -> (r: Option<(u64, usize)>)
    requires
        pos <= bytes@.len(),
    ensures
        match r {
            Some(p) => p.1 == pos + 8 && occurs_at(bytes@, pos as int, u64_le_bytes(p.0)),
            None => bytes@.len() < pos + 8,
        },
{
    if bytes.len() - pos < 8 {
        return None;
    }
    let x0 = bytes[pos];
    let x1 = bytes[pos + 1];
    let x2 = bytes[pos + 2];
    let x3 = bytes[pos + 3];
    let x4 = bytes[pos + 4];
    let x5 = bytes[pos + 5];
    let x6 = bytes[pos + 6];
    let x7 = bytes[pos + 7];
    let v: u64 = x0 as u64 + 0x100u64 * (x1 as u64) + 0x10000u64 * (x2 as u64) + 0x100_0000u64 * (
    x3 as u64) + 0x1_0000_0000u64 * (x4 as u64) + 0x100_0000_0000u64 * (x5 as u64)
        + 0x1_0000_0000_0000u64 * (x6 as u64) + 0x100_0000_0000_0000u64 * (x7 as u64);
    proof {
        assert((v % 256) as u8 == x0 && ((v / 0x100) % 256) as u8 == x1 && ((v / 0x10000) % 256) as u8
            == x2 && ((v / 0x100_0000) % 256) as u8 == x3 && ((v / 0x1_0000_0000) % 256) as u8 == x4
            && ((v / 0x100_0000_0000) % 256) as u8 == x5 && ((v / 0x1_0000_0000_0000) % 256) as u8
            == x6 && ((v / 0x100_0000_0000_0000) % 256) as u8 == x7) by (bit_vector)
            requires
                v == x0 as u64 + 0x100u64 * (x1 as u64) + 0x10000u64 * (x2 as u64)
                    + 0x100_0000u64 * (x3 as u64) + 0x1_0000_0000u64 * (x4 as u64)
                    + 0x100_0000_0000u64 * (x5 as u64) + 0x1_0000_0000_0000u64 * (x6 as u64)
                    + 0x100_0000_0000_0000u64 * (x7 as u64),
        ;
        assert(u64_le_bytes(v) =~= bytes@.subrange(pos as int, pos + 8));
    }
    Some((v, pos + 8))
}


/// Reads a compact-encoded `u32`; fails exactly when no compact encoding
/// of any `u32` occurs at the position.
pub fn decode_compact_u32(bytes: &Vec<u8>, pos: usize) -> (r: Option<(u32, usize)>)
    requires
        pos <= bytes@.len(),
    ensures
        match r {
            Some(p) => p.1 == pos + compact_u32_bytes(p.0).len() && occurs_at(
                bytes@,
                pos as int,
                compact_u32_bytes(p.0),
            ),
            None => forall|v: u32| !occurs_at(bytes@, pos as int, compact_u32_bytes(v)),
        },
{
    if pos >= bytes.len() {
        proof {
            assert forall|v: u32| !occurs_at(bytes@, pos as int, compact_u32_bytes(v)) by {
                lemma_compact_mode(v);
            }
        }
        return None;
    }
    let b0 = bytes[pos];
    let mode = b0 % 4;
    if mode == 0 {
        let v = (b0 / 4) as u32;
        proof {
            vstd::arithmetic::div_mod::lemma_fundamental_div_mod(b0 as int, 4);
            vstd::arithmetic::div_mod::lemma_div_is_ordered(b0 as int, 255, 4);
            vstd::arithmetic::div_mod::lemma_fundamental_div_mod_converse_div(255, 4, 63, 3);
            assert(v < 64);
            assert((v as int) * 4 == b0 as int);
            lemma_u8_roundtrip(b0 as int);
            assert((v * 4) as u8 == b0);
            assert(compact_u32_bytes(v) =~= bytes@.subrange(pos as int, pos + 1));
        }
        Some((v, pos + 1))
    } else if mode == 1 {
        if bytes.len() - pos < 2 {
            proof {
                assert forall|w: u32| !occurs_at(bytes@, pos as int, compact_u32_bytes(w)) by {
                    lemma_compact_mode(w);
                    if occurs_at(bytes@, pos as int, compact_u32_bytes(w)) {
                        assert(compact_u32_bytes(w)[0] == bytes@[pos as int]);
                        if w < 64 {
                            assert(false) by (bit_vector)
                                requires
                                    b0 % 4 == 1,
                                    w < 64,
                                    (w * 4) as u8 == b0,
                            ;
                        } else if w < 0x4000 {
                        } else if w < 0x4000_0000 {
                            assert(false) by (bit_vector)
                                requires
                                    b0 % 4 == 1,
                                    0x4000 <= w < 0x4000_0000,
                                    ((w * 4 + 2) % 256) as u8 == b0,
                            ;
                        } else {
                            assert(b0 == 3);
                            assert(false);
                        }
                    }
                }
            }
            return None;
        }
        let b1 = bytes[pos + 1];
        let n: u32 = b0 as u32 + 0x100u32 * (b1 as u32);
        proof {
            vstd::arithmetic::div_mod::lemma_fundamental_div_mod_converse_mod(
                n as int,
                0x100,
                b1 as int,
                b0 as int,
            );
            vstd::arithmetic::div_mod::lemma_fundamental_div_mod_converse_div(
                n as int,
                0x100,
                b1 as int,
                b0 as int,
            );
            vstd::arithmetic::div_mod::lemma_fundamental_div_mod(b0 as int, 4);
            vstd::arithmetic::div_mod::lemma_fundamental_div_mod_converse_mod(
                n as int,
                4,
                (b0 as int) / 4 + 64 * (b1 as int),
                1,
            );
            vstd::arithmetic::div_mod::lemma_fundamental_div_mod_converse_div(
                n as int,
                4,
                (b0 as int) / 4 + 64 * (b1 as int),
                1,
            );
        }
        let v = n / 4;
        assert((v as int) * 4 + 1 == n as int);
        if v < 64 || v >= 0x4000 {
            proof {
                assert forall|w: u32| !occurs_at(bytes@, pos as int, compact_u32_bytes(w)) by {
                    lemma_compact_mode(w);
                    if occurs_at(bytes@, pos as int, compact_u32_bytes(w)) {
                        assert(compact_u32_bytes(w)[0] == bytes@[pos as int]);
                        if w < 64 {
                            assert(false) by (bit_vector)
                                requires
                                    b0 % 4 == 1,
                                    w < 64,
                                    (w * 4) as u8 == b0,
                            ;
                        } else if w < 0x4000 {
                            assert(compact_u32_bytes(w)[1] == bytes@[pos + 1]);
                            let nw = (w as int) * 4 + 1;
                            vstd::arithmetic::div_mod::lemma_mod_bound(nw, 256);
                            lemma_u8_roundtrip(nw % 256);
                            assert(nw % 256 == b0 as int);
                            vstd::arithmetic::div_mod::lemma_div_is_ordered(nw, 0xFFFF, 256);
                            vstd::arithmetic::div_mod::lemma_fundamental_div_mod_converse_div(
                                0xFFFF,
                                256,
                                0xFF,
                                0xFF,
                            );
                            vstd::arithmetic::div_mod::lemma_div_pos_is_pos(nw, 256);
                            lemma_u8_roundtrip(nw / 256);
                            assert(nw / 256 == b1 as int);
                            vstd::arithmetic::div_mod::lemma_fundamental_div_mod(nw, 256);
                            assert(nw == n as int);
                            vstd::arithmetic::div_mod::lemma_fundamental_div_mod_converse_div(
                                n as int,
                                4,
                                w as int,
                                1,
                            );
                            assert(w as int == (n as int) / 4);
                            assert(false);
                        } else if w < 0x4000_0000 {
                            assert(false) by (bit_vector)
                                requires
                                    b0 % 4 == 1,
                                    0x4000 <= w < 0x4000_0000,
                                    ((w * 4 + 2) % 256) as u8 == b0,
                            ;
                        } else {
                            assert(b0 == 3);
                            assert(false);
                        }
                    }
                }
            }
            return None;
        }
        proof {
            assert((v as int) * 4 + 1 == n as int);
            lemma_u8_roundtrip(b0 as int);
            lemma_u8_roundtrip(b1 as int);
            assert(((v * 4 + 1) % 256) as u8 == b0);
            assert(((v * 4 + 1) / 256) as u8 == b1);
            assert(compact_u32_bytes(v) =~= bytes@.subrange(pos as int, pos + 2));
        }
        Some((v, pos + 2))
    } else if mode == 2 {
        if bytes.len() - pos < 4 {
            proof {
                assert forall|w: u32| !occurs_at(bytes@, pos as int, compact_u32_bytes(w)) by {
                    lemma_compact_mode(w);
                    if occurs_at(bytes@, pos as int, compact_u32_bytes(w)) {
                        assert(compact_u32_bytes(w)[0] == bytes@[pos as int]);
                        if w < 64 {
                            assert(false) by (bit_vector)
                                requires
                                    b0 % 4 == 2,
                                    w < 64,
                                    (w * 4) as u8 == b0,
                            ;
                        } else if w < 0x4000 {
                            assert(false) by (bit_vector)
                                requires
                                    b0 % 4 == 2,
                                    64 <= w < 0x4000,
                                    ((w * 4 + 1) % 256) as u8 == b0,
                            ;
                        } else if w < 0x4000_0000 {
                        } else {
                            assert(b0 == 3);
                            assert(false);
                        }
                    }
                }
            }
            return None;
        }
        let b1 = bytes[pos + 1];
        let b2 = bytes[pos + 2];
        let b3 = bytes[pos + 3];
        let n: u32 = b0 as u32 + 0x100u32 * (b1 as u32) + 0x10000u32 * (b2 as u32) + 0x100_0000u32
            * (b3 as u32);
        let ghost q = (b0 as int) / 4 + 64 * (b1 as int) + 0x4000 * (b2 as int) + 0x40_0000 * (
        b3 as int);
        proof {
            vstd::arithmetic::div_mod::lemma_fundamental_div_mod(b0 as int, 4);
            vstd::arithmetic::div_mod::lemma_fundamental_div_mod_converse_mod(n as int, 4, q, 2);
            vstd::arithmetic::div_mod::lemma_fundamental_div_mod_converse_div(n as int, 4, q, 2);
        }
        let v = n / 4;
        assert(v as int == q && (v as int) * 4 + 2 == n as int);
        if v < 0x4000 {
            proof {
                lemma_le4_digits(b0, b1, b2, b3);
                assert forall|w: u32| !occurs_at(bytes@, pos as int, compact_u32_bytes(w)) by {
                    lemma_compact_mode(w);
                    if occurs_at(bytes@, pos as int, compact_u32_bytes(w)) {
                        assert(compact_u32_bytes(w)[0] == bytes@[pos as int]);
                        if w < 64 {
                            assert(false) by (bit_vector)
                                requires
                                    b0 % 4 == 2,
                                    w < 64,
                                    (w * 4) as u8 == b0,
                            ;
                        } else if w < 0x4000 {
                            assert(false) by (bit_vector)
                                requires
                                    b0 % 4 == 2,
                                    64 <= w < 0x4000,
                                    ((w * 4 + 1) % 256) as u8 == b0,
                            ;
                        } else if w < 0x4000_0000 {
                            let nw = (w as int) * 4 + 2;
                            assert(compact_u32_bytes(w)[1] == bytes@[pos + 1]);
                            assert(compact_u32_bytes(w)[2] == bytes@[pos + 2]);
                            assert(compact_u32_bytes(w)[3] == bytes@[pos + 3]);
                            assert forall|k: int| 0 <= k < 4 implies digit_of(nw, k) == digit_of(
                                n as int,
                                k,
                            ) by {
                                vstd::arithmetic::div_mod::lemma_mod_bound(quot_of(nw, k), 0x100);
                                lemma_u8_roundtrip(digit_of(nw, k));
                            }
                            lemma_le4_digits_determine(nw, n as int);
                            assert(w as int == q);
                            assert(false);
                        } else {
                            assert(b0 == 3);
                            assert(false);
                        }
                    }
                }
            }
            return None;
        }
        proof {
            lemma_le4_digits(b0, b1, b2, b3);
            assert(((v * 4 + 2) % 256) as u8 == b0);
            assert((((v * 4 + 2) / 0x100) % 256) as u8 == b1);
            assert((((v * 4 + 2) / 0x10000) % 256) as u8 == b2);
            assert((((v * 4 + 2) / 0x100_0000) % 256) as u8 == b3);
            assert(compact_u32_bytes(v) =~= bytes@.subrange(pos as int, pos + 4));
        }
        Some((v, pos + 4))
    } else {
        if b0 != 3 || bytes.len() - pos < 5 {
            proof {
                assert forall|w: u32| !occurs_at(bytes@, pos as int, compact_u32_bytes(w)) by {
                    lemma_compact_mode(w);
                    if occurs_at(bytes@, pos as int, compact_u32_bytes(w)) {
                        assert(compact_u32_bytes(w)[0] == bytes@[pos as int]);
                        if w < 64 {
                            assert(false) by (bit_vector)
                                requires
                                    b0 % 4 == 3,
                                    w < 64,
                                    (w * 4) as u8 == b0,
                            ;
                        } else if w < 0x4000 {
                            assert(false) by (bit_vector)
                                requires
                                    b0 % 4 == 3,
                                    64 <= w < 0x4000,
                                    ((w * 4 + 1) % 256) as u8 == b0,
                            ;
                        } else if w < 0x4000_0000 {
                            assert(false) by (bit_vector)
                                requires
                                    b0 % 4 == 3,
                                    0x4000 <= w < 0x4000_0000,
                                    ((w * 4 + 2) % 256) as u8 == b0,
                            ;
                        } else {
                            assert(compact_u32_bytes(w)[0] == 3);
                            assert(b0 == 3);
                        }
                    }
                }
            }
            return None;
        }
        let b1 = bytes[pos + 1];
        let b2 = bytes[pos + 2];
        let b3 = bytes[pos + 3];
        let b4 = bytes[pos + 4];
        let v: u32 = b1 as u32 + 0x100u32 * (b2 as u32) + 0x10000u32 * (b3 as u32) + 0x100_0000u32
            * (b4 as u32);
        proof {
            lemma_le4_digits(b1, b2, b3, b4);
        }
        if v < 0x4000_0000 {
            proof {
                assert forall|w: u32| !occurs_at(bytes@, pos as int, compact_u32_bytes(w)) by {
                    lemma_compact_mode(w);
                    if occurs_at(bytes@, pos as int, compact_u32_bytes(w)) {
                        assert(compact_u32_bytes(w)[0] == bytes@[pos as int]);
                        if w < 64 {
                            assert(false) by (bit_vector)
                                requires
                                    b0 == 3,
                                    w < 64,
                                    (w * 4) as u8 == b0,
                            ;
                        } else if w < 0x4000 {
                            assert(false) by (bit_vector)
                                requires
                                    b0 == 3,
                                    64 <= w < 0x4000,
                                    ((w * 4 + 1) % 256) as u8 == b0,
                            ;
                        } else if w < 0x4000_0000 {
                            assert(false) by (bit_vector)
                                requires
                                    b0 == 3,
                                    0x4000 <= w < 0x4000_0000,
                                    ((w * 4 + 2) % 256) as u8 == b0,
                            ;
                        } else {
                            assert(compact_u32_bytes(w)[1] == bytes@[pos + 1]);
                            assert(compact_u32_bytes(w)[2] == bytes@[pos + 2]);
                            assert(compact_u32_bytes(w)[3] == bytes@[pos + 3]);
                            assert(compact_u32_bytes(w)[4] == bytes@[pos + 4]);
                            assert forall|k: int| 0 <= k < 4 implies digit_of(w as int, k)
                                == digit_of(v as int, k) by {
                                vstd::arithmetic::div_mod::lemma_mod_bound(
                                    quot_of(w as int, k),
                                    0x100,
                                );
                                lemma_u8_roundtrip(digit_of(w as int, k));
                            }
                            lemma_le4_digits_determine(w as int, v as int);
                            assert(false);
                        }
                    }
                }
            }
            return None;
        }
        proof {
            assert((v % 256) as u8 == b1);
            assert(((v / 0x100) % 256) as u8 == b2);
            assert(((v / 0x10000) % 256) as u8 == b3);
            assert(((v / 0x100_0000) % 256) as u8 == b4);
            assert(compact_u32_bytes(v) =~= bytes@.subrange(pos as int, pos + 5));
        }
        Some((v, pos + 5))
    }
}

/// A byte-string encoding occurring at a position determines the string
/// and the length consumed.
pub proof fn lemma_bytes_enc_prefix_unique(s: Seq<u8>, pos: int, a: Seq<u8>, b: Seq<u8>)
    requires
        a.len() <= u32::MAX,
        b.len() <= u32::MAX,
        occurs_at(s, pos, bytes_enc(a)),
        occurs_at(s, pos, bytes_enc(b)),
    ensures
        a == b,
{
    let ca = compact_u32_bytes(a.len() as u32);
    let cb = compact_u32_bytes(b.len() as u32);
    assert(occurs_at(s, pos, ca)) by {
        assert(s.subrange(pos, pos + ca.len()) =~= s.subrange(
            pos,
            pos + bytes_enc(a).len(),
        ).subrange(0, ca.len() as int));
        assert(bytes_enc(a).subrange(0, ca.len() as int) =~= ca);
    }
    assert(occurs_at(s, pos, cb)) by {
        assert(s.subrange(pos, pos + cb.len()) =~= s.subrange(
            pos,
            pos + bytes_enc(b).len(),
        ).subrange(0, cb.len() as int));
        assert(bytes_enc(b).subrange(0, cb.len() as int) =~= cb);
    }
    lemma_compact_prefix_unique(s, pos, a.len() as u32, b.len() as u32);
    assert(a.len() == b.len());
    assert(a =~= b) by {
        assert forall|k: int| 0 <= k < a.len() implies a[k] == b[k] by {
            assert(a[k] == bytes_enc(a)[ca.len() + k]);
            assert(bytes_enc(a)[ca.len() + k] == s.subrange(pos, pos + bytes_enc(a).len())[ca.len()
                + k]);
            assert(b[k] == bytes_enc(b)[ca.len() + k]);
            assert(bytes_enc(b)[ca.len() + k] == s.subrange(pos, pos + bytes_enc(b).len())[ca.len()
                + k]);
        }
    }
}
/// Reads a length-prefixed byte string; fails exactly when no byte-string
/// encoding occurs at the position.
pub fn decode_bytes(bytes: &Vec<u8>, pos: usize) -> (r: Option<(Vec<u8>, usize)>)
    requires
        pos <= bytes@.len(),
    ensures
        match r {
            Some(p) => {
                &&& p.0@.len() <= u32::MAX
                &&& p.1 == pos + bytes_enc(p.0@).len()
                &&& occurs_at(bytes@, pos as int, bytes_enc(p.0@))
            },
            None => forall|t: Seq<u8>|
                t.len() <= u32::MAX ==> !occurs_at(bytes@, pos as int, bytes_enc(t)),
        },
{
    let head = decode_compact_u32(bytes, pos);
    match head {
        Option::None => {
            proof {
                assert forall|t: Seq<u8>|
                    t.len() <= u32::MAX implies !occurs_at(bytes@, pos as int, bytes_enc(t)) by {
                    if occurs_at(bytes@, pos as int, bytes_enc(t)) {
                        let c = compact_u32_bytes(t.len() as u32);
                        assert(occurs_at(bytes@, pos as int, c)) by {
                            assert(bytes@.subrange(pos as int, pos + c.len()) =~= bytes@.subrange(
                                pos as int,
                                pos + bytes_enc(t).len(),
                            ).subrange(0, c.len() as int));
                            assert(bytes_enc(t).subrange(0, c.len() as int) =~= c);
                        }
                    }
                }
            }
            None
        },
        Option::Some((len32, n1)) => {
            let len = len32 as usize;
            if len > bytes.len() - n1 {
                proof {
                    assert forall|t: Seq<u8>|
                        t.len() <= u32::MAX implies !occurs_at(bytes@, pos as int, bytes_enc(t)) by {
                        if occurs_at(bytes@, pos as int, bytes_enc(t)) {
                            let c = compact_u32_bytes(t.len() as u32);
                            assert(occurs_at(bytes@, pos as int, c)) by {
                                assert(bytes@.subrange(pos as int, pos + c.len())
                                    =~= bytes@.subrange(
                                    pos as int,
                                    pos + bytes_enc(t).len(),
                                ).subrange(0, c.len() as int));
                                assert(bytes_enc(t).subrange(0, c.len() as int) =~= c);
                            }
                            lemma_compact_prefix_unique(bytes@, pos as int, t.len() as u32, len32);
                            assert(t.len() == len32);
                            assert(pos + bytes_enc(t).len() <= bytes@.len());
                            assert(bytes_enc(t).len() == c.len() + t.len());
                            assert(false);
                        }
                    }
                }
                return None;
            }
            let mut out: Vec<u8> = Vec::new();
            let mut i: usize = 0;
            while i < len
                invariant
                    i <= len,
                    n1 + len <= bytes@.len(),
                    bytes@.len() <= usize::MAX,
                    out@.len() == i,
                    forall|k: int| 0 <= k < i ==> #[trigger] out@[k] == bytes@[n1 + k],
                decreases len - i,
            {
                out.push(bytes[n1 + i]);
                i += 1;
            }
            proof {
                assert(bytes_enc(out@).len() == compact_u32_bytes(len32).len() + len);
                assert(bytes_enc(out@) =~= bytes@.subrange(
                    pos as int,
                    pos + bytes_enc(out@).len(),
                )) by {
                    assert(out@.len() == len32);
                    assert(compact_u32_bytes(out@.len() as u32) =~= bytes@.subrange(
                        pos as int,
                        n1 as int,
                    ));
                }
            }
            Some((out, n1 + len))
        },
    }
}

} // verus!
