//! Regrouping of a 32-byte payload into 5-bit groups and back.
//!
//! The byte sequence is read as a big-endian bit stream; the stream is
//! cut into groups of five bits, the last group padded with zero bits.
//! 32 bytes give 256 bits and hence 52 groups with 4 padding bits.
use vstd::prelude::*;

verus! {

/// Byte `i` of `s`, or zero past the end: the zero padding that the
/// regrouping appends to the bit stream.
pub open spec fn byte_at(s: Seq<u8>, i: int) -> u8 {
    if 0 <= i < s.len() {
        s[i]
    } else {
        0u8
    }
}

/// Group `g` of the bit stream of `s`: bits `5g .. 5g+5`, where bit `p`
/// of the stream is bit `7 - p % 8` of byte `p / 8`. The two bytes that
/// can contain those five bits are read into a 16-bit window and the
/// group is cut out by shifting.
pub open spec fn u5_at(s: Seq<u8>, g: int) -> u8 {
    let off = (5 * g) % 8;
    let i = (5 * g) / 8;
    let w = ((byte_at(s, i) as u32) << 8u32) | (byte_at(s, i + 1) as u32);
    ((w >> ((11 - off) as u32)) & 31) as u8
}

/// The 5-bit regrouping of `s`, zero-padded to a whole number of groups.
pub open spec fn to_base32_spec(s: Seq<u8>) -> Seq<u8> {
    Seq::new((s.len() * 8 + 4) / 5, |g: int| u5_at(s, g))
}

/// Group `k` of `gs`, or zero past the end.
pub open spec fn group_at(gs: Seq<u8>, k: int) -> u8 {
    if 0 <= k < gs.len() {
        gs[k]
    } else {
        0u8
    }
}

/// Byte `j` reassembled from 5-bit groups: bits `8j .. 8j+8` of the
/// stream that the groups spell, taken from the three groups that can
/// cover them.
pub open spec fn byte_from_groups(gs: Seq<u8>, j: int) -> u8 {
    let k = (8 * j) / 5;
    let o = (8 * j) % 5;
    let w = ((group_at(gs, k) as u32) << 10u32) | ((group_at(gs, k + 1) as u32) << 5u32) | (
    group_at(gs, k + 2) as u32);
    ((w >> ((7 - o) as u32)) & 255) as u8
}

/// Every group is a 5-bit value.
pub open spec fn groups_in_range(gs: Seq<u8>) -> bool {
    forall|k: int| 0 <= k < gs.len() ==> gs[k] < 32
}

/// The inverse regrouping for a 32-byte payload: exactly 52 groups of
/// five bits each, of which the last four bits are padding and must be
/// zero.
pub open spec fn from_base32_spec(gs: Seq<u8>) -> Option<Seq<u8>> {
    if gs.len() == 52 && groups_in_range(gs) && gs[51] & 15 == 0 {
        Some(Seq::new(32, |j: int| byte_from_groups(gs, j)))
    } else {
        None
    }
}

pub proof fn lemma_u5_in_range(s: Seq<u8>, g: int)
    ensures
        u5_at(s, g) < 32,
{
    let off = (5 * g) % 8;
    let i = (5 * g) / 8;
    let w = ((byte_at(s, i) as u32) << 8u32) | (byte_at(s, i + 1) as u32);
    let sh = (11 - off) as u32;
    assert((w >> sh) & 31 < 32) by (bit_vector);
}

/// The 5-bit regrouping of a 32-byte payload.
pub fn to_base32(bytes: &Vec<u8>) -> (r: Vec<u8>)
    requires
        bytes@.len() == 32,
    ensures
        r@ == to_base32_spec(bytes@),
        r@.len() == 52,
        groups_in_range(r@),
{
    let mut r: Vec<u8> = Vec::new();
    let mut g: usize = 0;
    while g < 52
        invariant
            bytes@.len() == 32,
            g <= 52,
            r@ == to_base32_spec(bytes@).subrange(0, g as int),
        decreases 52 - g,
    {
        let i = (5 * g) / 8;
        let off = (5 * g) % 8;
        let b0 = bytes[i];
        let b1 = if i + 1 < 32 {
            bytes[i + 1]
        } else {
            0u8
        };
        let w = ((b0 as u32) << 8u32) | (b1 as u32);
        let v = ((w >> ((11 - off) as u32)) & 31) as u8;
        proof {
            assert(v == u5_at(bytes@, g as int));
        }
        r.push(v);
        proof {
            assert(r@ =~= to_base32_spec(bytes@).subrange(0, g as int + 1));
        }
        g = g + 1;
    }
    proof {
        assert(r@ =~= to_base32_spec(bytes@));
        assert forall|k: int| 0 <= k < r@.len() implies r@[k] < 32 by {
            lemma_u5_in_range(bytes@, k);
        }
    }
    r
}

/// The bytes spelled by 52 groups of five bits, or `None` where the
/// shape is wrong: not 52 groups, a group out of range, or a nonzero
/// padding bit.
pub fn from_base32(groups: &Vec<u8>) -> (r: Option<Vec<u8>>)
    ensures
        r is Some <==> from_base32_spec(groups@) is Some,
        r matches Some(v) ==> Some(v@) == from_base32_spec(groups@),
{
    if groups.len() != 52 {
        return None;
    }
    let mut k: usize = 0;
    while k < 52
        invariant
            groups@.len() == 52,
            k <= 52,
            forall|x: int| 0 <= x < k ==> groups@[x] < 32,
        decreases 52 - k,
    {
        if groups[k] >= 32 {
            return None;
        }
        k = k + 1;
    }
    if groups[51] & 15 != 0 {
        return None;
    }
    let ghost spec_bytes = Seq::new(32, |j: int| byte_from_groups(groups@, j));
    let mut r: Vec<u8> = Vec::new();
    let mut j: usize = 0;
    while j < 32
        invariant
            groups@.len() == 52,
            groups_in_range(groups@),
            j <= 32,
            r@ == spec_bytes.subrange(0, j as int),
            spec_bytes == Seq::new(32, |j: int| byte_from_groups(groups@, j)),
        decreases 32 - j,
    {
        let k0 = (8 * j) / 5;
        let o = (8 * j) % 5;
        let w = ((groups[k0] as u32) << 10u32) | ((groups[k0 + 1] as u32) << 5u32) | (
        groups[k0 + 2] as u32);
        let b = ((w >> ((7 - o) as u32)) & 255) as u8;
        proof {
            assert(b == byte_from_groups(groups@, j as int));
        }
        r.push(b);
        proof {
            assert(r@ =~= spec_bytes.subrange(0, j as int + 1));
        }
        j = j + 1;
    }
    proof {
        assert(r@ =~= spec_bytes);
    }
    Some(r)
}

proof fn lemma_rt_case0(a: u8, b: u8, c: u8, g0: u8, g1: u8, g2: u8)
    requires
        g0 == ((((a as u32) << 8u32 | (b as u32)) >> 11u32) & 31) as u8,
        g1 == ((((a as u32) << 8u32 | (b as u32)) >> 6u32) & 31) as u8,
        g2 == ((((b as u32) << 8u32 | (c as u32)) >> 9u32) & 31) as u8,
    ensures
        ((((g0 as u32) << 10u32 | (g1 as u32) << 5u32 | (g2 as u32)) >> 7u32) & 255) as u8 == a,
{
    assert((((g0 as u32) << 10u32 | (g1 as u32) << 5u32 | (g2 as u32)) >> 7u32) & 255 == a as u32)
        by (bit_vector)
        requires
            g0 == ((((a as u32) << 8u32 | (b as u32)) >> 11u32) & 31) as u8,
            g1 == ((((a as u32) << 8u32 | (b as u32)) >> 6u32) & 31) as u8,
            g2 == ((((b as u32) << 8u32 | (c as u32)) >> 9u32) & 31) as u8,
    ;
}

proof fn lemma_rt_case1(a: u8, b: u8, c: u8, g0: u8, g1: u8, g2: u8)
    requires
        g0 == ((((a as u32) << 8u32 | (b as u32)) >> 6u32) & 31) as u8,
        g1 == ((((b as u32) << 8u32 | (c as u32)) >> 9u32) & 31) as u8,
        g2 == ((((b as u32) << 8u32 | (c as u32)) >> 4u32) & 31) as u8,
    ensures
        ((((g0 as u32) << 10u32 | (g1 as u32) << 5u32 | (g2 as u32)) >> 4u32) & 255) as u8 == b,
{
    assert((((g0 as u32) << 10u32 | (g1 as u32) << 5u32 | (g2 as u32)) >> 4u32) & 255 == b as u32)
        by (bit_vector)
        requires
            g0 == ((((a as u32) << 8u32 | (b as u32)) >> 6u32) & 31) as u8,
            g1 == ((((b as u32) << 8u32 | (c as u32)) >> 9u32) & 31) as u8,
            g2 == ((((b as u32) << 8u32 | (c as u32)) >> 4u32) & 31) as u8,
    ;
}

proof fn lemma_rt_case2(a: u8, b: u8, c: u8, d: u8, g0: u8, g1: u8, g2: u8)
    requires
        g0 == ((((a as u32) << 8u32 | (b as u32)) >> 4u32) & 31) as u8,
        g1 == ((((b as u32) << 8u32 | (c as u32)) >> 7u32) & 31) as u8,
        g2 == ((((c as u32) << 8u32 | (d as u32)) >> 10u32) & 31) as u8,
    ensures
        ((((g0 as u32) << 10u32 | (g1 as u32) << 5u32 | (g2 as u32)) >> 6u32) & 255) as u8 == b,
{
    assert((((g0 as u32) << 10u32 | (g1 as u32) << 5u32 | (g2 as u32)) >> 6u32) & 255 == b as u32)
        by (bit_vector)
        requires
            g0 == ((((a as u32) << 8u32 | (b as u32)) >> 4u32) & 31) as u8,
            g1 == ((((b as u32) << 8u32 | (c as u32)) >> 7u32) & 31) as u8,
            g2 == ((((c as u32) << 8u32 | (d as u32)) >> 10u32) & 31) as u8,
    ;
}

proof fn lemma_rt_case3(a: u8, b: u8, c: u8, g0: u8, g1: u8, g2: u8)
    requires
        g0 == ((((a as u32) << 8u32 | (b as u32)) >> 7u32) & 31) as u8,
        g1 == ((((b as u32) << 8u32 | (c as u32)) >> 10u32) & 31) as u8,
        g2 == ((((b as u32) << 8u32 | (c as u32)) >> 5u32) & 31) as u8,
    ensures
        ((((g0 as u32) << 10u32 | (g1 as u32) << 5u32 | (g2 as u32)) >> 3u32) & 255) as u8 == b,
{
    assert((((g0 as u32) << 10u32 | (g1 as u32) << 5u32 | (g2 as u32)) >> 3u32) & 255 == b as u32)
        by (bit_vector)
        requires
            g0 == ((((a as u32) << 8u32 | (b as u32)) >> 7u32) & 31) as u8,
            g1 == ((((b as u32) << 8u32 | (c as u32)) >> 10u32) & 31) as u8,
            g2 == ((((b as u32) << 8u32 | (c as u32)) >> 5u32) & 31) as u8,
    ;
}

proof fn lemma_rt_case4(a: u8, b: u8, c: u8, d: u8, g0: u8, g1: u8, g2: u8)
    requires
        g0 == ((((a as u32) << 8u32 | (b as u32)) >> 5u32) & 31) as u8,
        g1 == ((((b as u32) << 8u32 | (c as u32)) >> 8u32) & 31) as u8,
        g2 == ((((c as u32) << 8u32 | (d as u32)) >> 11u32) & 31) as u8,
    ensures
        ((((g0 as u32) << 10u32 | (g1 as u32) << 5u32 | (g2 as u32)) >> 5u32) & 255) as u8 == b,
{
    assert((((g0 as u32) << 10u32 | (g1 as u32) << 5u32 | (g2 as u32)) >> 5u32) & 255 == b as u32)
        by (bit_vector)
        requires
            g0 == ((((a as u32) << 8u32 | (b as u32)) >> 5u32) & 31) as u8,
            g1 == ((((b as u32) << 8u32 | (c as u32)) >> 8u32) & 31) as u8,
            g2 == ((((c as u32) << 8u32 | (d as u32)) >> 11u32) & 31) as u8,
    ;
}

/// The group expression of `u5_at`, with the window anchored at byte `i`
/// and the five bits starting `off` bits into the window.
proof fn lemma_u5_unfold(s: Seq<u8>, k: int, i: int, off: int)
    requires
        (5 * k) / 8 == i,
        (5 * k) % 8 == off,
    ensures
        u5_at(s, k) == ((((byte_at(s, i) as u32) << 8u32 | (byte_at(s, i + 1) as u32)) >> ((11
            - off) as u32)) & 31) as u8,
{
}

proof fn lemma_byte_round_trip(s: Seq<u8>, j: int)
    requires
        s.len() == 32,
        0 <= j < 32,
    ensures
        byte_from_groups(to_base32_spec(s), j) == s[j],
{
    let gs = to_base32_spec(s);
    assert(gs.len() == 52);
    let m = j / 5;
    let t = j % 5;
    vstd::arithmetic::div_mod::lemma_fundamental_div_mod(j, 5);
    let k = (8 * j) / 5;
    let o = (8 * j) % 5;
    assert(forall|x: int| 0 <= x < 52 ==> gs[x] == u5_at(s, x));
    if t == 0 {
        vstd::arithmetic::div_mod::lemma_fundamental_div_mod_converse(8 * j, 5, 8 * m, 0);
        vstd::arithmetic::div_mod::lemma_fundamental_div_mod_converse(5 * (8 * m), 8, 5 * m, 0);
        vstd::arithmetic::div_mod::lemma_fundamental_div_mod_converse(5 * (8 * m + 1), 8, 5 * m, 5);
        vstd::arithmetic::div_mod::lemma_fundamental_div_mod_converse(
            5 * (8 * m + 2),
            8,
            5 * m + 1,
            2,
        );
        lemma_u5_unfold(s, 8 * m, 5 * m, 0);
        lemma_u5_unfold(s, 8 * m + 1, 5 * m, 5);
        lemma_u5_unfold(s, 8 * m + 2, 5 * m + 1, 2);
        lemma_rt_case0(
            byte_at(s, 5 * m),
            byte_at(s, 5 * m + 1),
            byte_at(s, 5 * m + 2),
            gs[k],
            gs[k + 1],
            gs[k + 2],
        );
    } else if t == 1 {
        vstd::arithmetic::div_mod::lemma_fundamental_div_mod_converse(8 * j, 5, 8 * m + 1, 3);
        vstd::arithmetic::div_mod::lemma_fundamental_div_mod_converse(5 * (8 * m + 1), 8, 5 * m, 5);
        vstd::arithmetic::div_mod::lemma_fundamental_div_mod_converse(
            5 * (8 * m + 2),
            8,
            5 * m + 1,
            2,
        );
        vstd::arithmetic::div_mod::lemma_fundamental_div_mod_converse(
            5 * (8 * m + 3),
            8,
            5 * m + 1,
            7,
        );
        lemma_u5_unfold(s, 8 * m + 1, 5 * m, 5);
        lemma_u5_unfold(s, 8 * m + 2, 5 * m + 1, 2);
        lemma_u5_unfold(s, 8 * m + 3, 5 * m + 1, 7);
        lemma_rt_case1(
            byte_at(s, 5 * m),
            byte_at(s, 5 * m + 1),
            byte_at(s, 5 * m + 2),
            gs[k],
            gs[k + 1],
            gs[k + 2],
        );
    } else if t == 2 {
        vstd::arithmetic::div_mod::lemma_fundamental_div_mod_converse(8 * j, 5, 8 * m + 3, 1);
        vstd::arithmetic::div_mod::lemma_fundamental_div_mod_converse(
            5 * (8 * m + 3),
            8,
            5 * m + 1,
            7,
        );
        vstd::arithmetic::div_mod::lemma_fundamental_div_mod_converse(
            5 * (8 * m + 4),
            8,
            5 * m + 2,
            4,
        );
        vstd::arithmetic::div_mod::lemma_fundamental_div_mod_converse(
            5 * (8 * m + 5),
            8,
            5 * m + 3,
            1,
        );
        lemma_u5_unfold(s, 8 * m + 3, 5 * m + 1, 7);
        lemma_u5_unfold(s, 8 * m + 4, 5 * m + 2, 4);
        lemma_u5_unfold(s, 8 * m + 5, 5 * m + 3, 1);
        lemma_rt_case2(
            byte_at(s, 5 * m + 1),
            byte_at(s, 5 * m + 2),
            byte_at(s, 5 * m + 3),
            byte_at(s, 5 * m + 4),
            gs[k],
            gs[k + 1],
            gs[k + 2],
        );
    } else if t == 3 {
        vstd::arithmetic::div_mod::lemma_fundamental_div_mod_converse(8 * j, 5, 8 * m + 4, 4);
        vstd::arithmetic::div_mod::lemma_fundamental_div_mod_converse(
            5 * (8 * m + 4),
            8,
            5 * m + 2,
            4,
        );
        vstd::arithmetic::div_mod::lemma_fundamental_div_mod_converse(
            5 * (8 * m + 5),
            8,
            5 * m + 3,
            1,
        );
        vstd::arithmetic::div_mod::lemma_fundamental_div_mod_converse(
            5 * (8 * m + 6),
            8,
            5 * m + 3,
            6,
        );
        lemma_u5_unfold(s, 8 * m + 4, 5 * m + 2, 4);
        lemma_u5_unfold(s, 8 * m + 5, 5 * m + 3, 1);
        lemma_u5_unfold(s, 8 * m + 6, 5 * m + 3, 6);
        lemma_rt_case3(
            byte_at(s, 5 * m + 2),
            byte_at(s, 5 * m + 3),
            byte_at(s, 5 * m + 4),
            gs[k],
            gs[k + 1],
            gs[k + 2],
        );
    } else {
        assert(t == 4);
        vstd::arithmetic::div_mod::lemma_fundamental_div_mod_converse(8 * j, 5, 8 * m + 6, 2);
        vstd::arithmetic::div_mod::lemma_fundamental_div_mod_converse(
            5 * (8 * m + 6),
            8,
            5 * m + 3,
            6,
        );
        vstd::arithmetic::div_mod::lemma_fundamental_div_mod_converse(
            5 * (8 * m + 7),
            8,
            5 * m + 4,
            3,
        );
        vstd::arithmetic::div_mod::lemma_fundamental_div_mod_converse(
            5 * (8 * m + 8),
            8,
            5 * m + 5,
            0,
        );
        lemma_u5_unfold(s, 8 * m + 6, 5 * m + 3, 6);
        lemma_u5_unfold(s, 8 * m + 7, 5 * m + 4, 3);
        lemma_u5_unfold(s, 8 * m + 8, 5 * m + 5, 0);
        lemma_rt_case4(
            byte_at(s, 5 * m + 3),
            byte_at(s, 5 * m + 4),
            byte_at(s, 5 * m + 5),
            byte_at(s, 5 * m + 6),
            gs[k],
            gs[k + 1],
            gs[k + 2],
        );
    }
}

proof fn lemma_padding_zero(s: Seq<u8>)
    requires
        s.len() == 32,
    ensures
        to_base32_spec(s)[51] & 15 == 0,
{
    let gs = to_base32_spec(s);
    vstd::arithmetic::div_mod::lemma_fundamental_div_mod_converse(255, 8, 31, 7);
    lemma_u5_unfold(s, 51, 31, 7);
    let x = byte_at(s, 31);
    assert(((((((x as u32) << 8u32) | 0u32) >> 4u32) & 31) as u8) & 15 == 0) by (bit_vector);
    assert(byte_at(s, 32) == 0);
}

/// The regrouping into 5-bit groups loses nothing: reassembling the
/// groups of a 32-byte payload gives the payload back.
pub proof fn lemma_base32_round_trip(s: Seq<u8>)
    requires
        s.len() == 32,
    ensures
        from_base32_spec(to_base32_spec(s)) == Some(s),
{
    let gs = to_base32_spec(s);
    assert(gs.len() == 52);
    assert forall|k: int| 0 <= k < gs.len() implies gs[k] < 32 by {
        lemma_u5_in_range(s, k);
    }
    lemma_padding_zero(s);
    let b = Seq::new(32, |j: int| byte_from_groups(gs, j));
    assert forall|j: int| 0 <= j < 32 implies b[j] == s[j] by {
        lemma_byte_round_trip(s, j);
    }
    assert(b =~= s);
}

} // verus!
