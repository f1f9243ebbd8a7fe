//! Checksummed, prefixed text encoding of 32-byte payloads.
//!
//! An encoded key is `hrp ++ '1' ++ data ++ checksum`: a human-readable
//! part, a separator, 52 characters carrying the payload's 5-bit groups,
//! and 6 checksum characters, all data drawn from a fixed 32-character
//! alphabet. `decode` accepts exactly the strings that `encode_spec`
//! produces and returns the payload back.
use vstd::prelude::*;
use vstd::string::*;
use crate::base32::{
    from_base32, from_base32_spec, groups_in_range, lemma_base32_round_trip, to_base32,
    to_base32_spec,
};

verus! {

/// The data character that stands for the 5-bit value `v`.
pub open spec fn char_of_u5(v: u8) -> char {
    if v == 0 {
        'q'
    } else if v == 1 {
        'p'
    } else if v == 2 {
        'z'
    } else if v == 3 {
        'r'
    } else if v == 4 {
        'y'
    } else if v == 5 {
        '9'
    } else if v == 6 {
        'x'
    } else if v == 7 {
        '8'
    } else if v == 8 {
        'g'
    } else if v == 9 {
        'f'
    } else if v == 10 {
        '2'
    } else if v == 11 {
        't'
    } else if v == 12 {
        'v'
    } else if v == 13 {
        'd'
    } else if v == 14 {
        'w'
    } else if v == 15 {
        '0'
    } else if v == 16 {
        's'
    } else if v == 17 {
        '3'
    } else if v == 18 {
        'j'
    } else if v == 19 {
        'n'
    } else if v == 20 {
        '5'
    } else if v == 21 {
        '4'
    } else if v == 22 {
        'k'
    } else if v == 23 {
        'h'
    } else if v == 24 {
        'c'
    } else if v == 25 {
        'e'
    } else if v == 26 {
        '6'
    } else if v == 27 {
        'm'
    } else if v == 28 {
        'u'
    } else if v == 29 {
        'a'
    } else if v == 30 {
        '7'
    } else {
        'l'
    }
}

/// The 5-bit value of a data character, or 32 for a character outside
/// the alphabet.
pub open spec fn u5_of_char(c: char) -> u8 {
    if c == 'q' {
        0
    } else if c == 'p' {
        1
    } else if c == 'z' {
        2
    } else if c == 'r' {
        3
    } else if c == 'y' {
        4
    } else if c == '9' {
        5
    } else if c == 'x' {
        6
    } else if c == '8' {
        7
    } else if c == 'g' {
        8
    } else if c == 'f' {
        9
    } else if c == '2' {
        10
    } else if c == 't' {
        11
    } else if c == 'v' {
        12
    } else if c == 'd' {
        13
    } else if c == 'w' {
        14
    } else if c == '0' {
        15
    } else if c == 's' {
        16
    } else if c == '3' {
        17
    } else if c == 'j' {
        18
    } else if c == 'n' {
        19
    } else if c == '5' {
        20
    } else if c == '4' {
        21
    } else if c == 'k' {
        22
    } else if c == 'h' {
        23
    } else if c == 'c' {
        24
    } else if c == 'e' {
        25
    } else if c == '6' {
        26
    } else if c == 'm' {
        27
    } else if c == 'u' {
        28
    } else if c == 'a' {
        29
    } else if c == '7' {
        30
    } else if c == 'l' {
        31
    } else {
        32
    }
}

/// A character belongs to the 32-character data alphabet.
pub open spec fn in_alphabet(c: char) -> bool {
    u5_of_char(c) < 32
}

pub proof fn lemma_alphabet_inverse(v: u8)
    requires
        v < 32,
    ensures
        u5_of_char(char_of_u5(v)) == v,
        char_of_u5(v) != '1',
{
}

/// The data character for `v`.
pub fn u5_to_char(v: u8) -> (c: char)
    requires
        v < 32,
    ensures
        c == char_of_u5(v),
{
    if v == 0 {
        'q'
    } else if v == 1 {
        'p'
    } else if v == 2 {
        'z'
    } else if v == 3 {
        'r'
    } else if v == 4 {
        'y'
    } else if v == 5 {
        '9'
    } else if v == 6 {
        'x'
    } else if v == 7 {
        '8'
    } else if v == 8 {
        'g'
    } else if v == 9 {
        'f'
    } else if v == 10 {
        '2'
    } else if v == 11 {
        't'
    } else if v == 12 {
        'v'
    } else if v == 13 {
        'd'
    } else if v == 14 {
        'w'
    } else if v == 15 {
        '0'
    } else if v == 16 {
        's'
    } else if v == 17 {
        '3'
    } else if v == 18 {
        'j'
    } else if v == 19 {
        'n'
    } else if v == 20 {
        '5'
    } else if v == 21 {
        '4'
    } else if v == 22 {
        'k'
    } else if v == 23 {
        'h'
    } else if v == 24 {
        'c'
    } else if v == 25 {
        'e'
    } else if v == 26 {
        '6'
    } else if v == 27 {
        'm'
    } else if v == 28 {
        'u'
    } else if v == 29 {
        'a'
    } else if v == 30 {
        '7'
    } else {
        'l'
    }
}

/// The 5-bit value of a data character, or 32 outside the alphabet.
pub fn char_to_u5(c: char) -> (v: u8)
    ensures
        v == u5_of_char(c),
{
    if c == 'q' {
        0
    } else if c == 'p' {
        1
    } else if c == 'z' {
        2
    } else if c == 'r' {
        3
    } else if c == 'y' {
        4
    } else if c == '9' {
        5
    } else if c == 'x' {
        6
    } else if c == '8' {
        7
    } else if c == 'g' {
        8
    } else if c == 'f' {
        9
    } else if c == '2' {
        10
    } else if c == 't' {
        11
    } else if c == 'v' {
        12
    } else if c == 'd' {
        13
    } else if c == 'w' {
        14
    } else if c == '0' {
        15
    } else if c == 's' {
        16
    } else if c == '3' {
        17
    } else if c == 'j' {
        18
    } else if c == 'n' {
        19
    } else if c == '5' {
        20
    } else if c == '4' {
        21
    } else if c == 'k' {
        22
    } else if c == 'h' {
        23
    } else if c == 'c' {
        24
    } else if c == 'e' {
        25
    } else if c == '6' {
        26
    } else if c == 'm' {
        27
    } else if c == 'u' {
        28
    } else if c == 'a' {
        29
    } else if c == '7' {
        30
    } else if c == 'l' {
        31
    } else {
        32
    }
}

/// One step of the checksum polynomial over GF(32).
pub open spec fn polymod_step(chk: u32, v: u8) -> u32 {
    let b = chk >> 25u32;
    let c0 = ((chk & 0x1ffffffu32) << 5u32) ^ (v as u32);
    let c1 = if b & 1 == 1 {
        c0 ^ 0x3b6a57b2u32
    } else {
        c0
    };
    let c2 = if (b >> 1u32) & 1 == 1 {
        c1 ^ 0x26508e6du32
    } else {
        c1
    };
    let c3 = if (b >> 2u32) & 1 == 1 {
        c2 ^ 0x1ea119fau32
    } else {
        c2
    };
    let c4 = if (b >> 3u32) & 1 == 1 {
        c3 ^ 0x3d4233ddu32
    } else {
        c3
    };
    if (b >> 4u32) & 1 == 1 {
        c4 ^ 0x2a1462b3u32
    } else {
        c4
    }
}

/// The checksum polynomial of a value sequence, starting from 1.
pub open spec fn polymod(vals: Seq<u8>) -> u32
    decreases vals.len(),
{
    if vals.len() == 0 {
        1u32
    } else {
        polymod_step(polymod(vals.drop_last()), vals.last())
    }
}

fn polymod_exec(vals: &Vec<u8>) -> (r: u32)
    ensures
        r == polymod(vals@),
{
    let mut chk: u32 = 1;
    let mut i: usize = 0;
    while i < vals.len()
        invariant
            i <= vals@.len(),
            chk == polymod(vals@.subrange(0, i as int)),
        decreases vals@.len() - i,
    {
        let v = vals[i];
        let b = chk >> 25u32;
        let mut c = ((chk & 0x1ffffffu32) << 5u32) ^ (v as u32);
        if b & 1 == 1 {
            c = c ^ 0x3b6a57b2u32;
        }
        if (b >> 1u32) & 1 == 1 {
            c = c ^ 0x26508e6du32;
        }
        if (b >> 2u32) & 1 == 1 {
            c = c ^ 0x1ea119fau32;
        }
        if (b >> 3u32) & 1 == 1 {
            c = c ^ 0x3d4233ddu32;
        }
        if (b >> 4u32) & 1 == 1 {
            c = c ^ 0x2a1462b3u32;
        }
        proof {
            assert(c == polymod_step(polymod(vals@.subrange(0, i as int)), v));
            assert(vals@.subrange(0, i as int + 1).drop_last() =~= vals@.subrange(0, i as int));
            assert(vals@.subrange(0, i as int + 1).last() == vals@[i as int]);
        }
        chk = c;
        i = i + 1;
    }
    proof {
        assert(vals@.subrange(0, vals@.len() as int) =~= vals@);
    }
    chk
}

/// The human-readable part is non-empty printable ASCII.
pub open spec fn hrp_ok(hrp: Seq<char>) -> bool {
    1 <= hrp.len() && forall|i: int| 0 <= i < hrp.len() ==> 33 <= (#[trigger] hrp[i]) as u32 <= 126
}

/// The human-readable part fed into the checksum: the high bits of each
/// character, a zero, then the low five bits of each character.
pub open spec fn hrp_expand(hrp: Seq<char>) -> Seq<u8> {
    Seq::new(hrp.len(), |i: int| ((hrp[i] as u32) >> 5u32) as u8) + seq![0u8] + Seq::new(
        hrp.len(),
        |i: int| ((hrp[i] as u32) & 31) as u8,
    )
}

/// The six checksum values appended to the data part.
pub open spec fn checksum_spec(hrp: Seq<char>, data: Seq<u8>) -> Seq<u8> {
    let pm = polymod(hrp_expand(hrp) + data + seq![0u8, 0u8, 0u8, 0u8, 0u8, 0u8]) ^ 1u32;
    seq![
        ((pm >> 25u32) & 31) as u8,
        ((pm >> 20u32) & 31) as u8,
        ((pm >> 15u32) & 31) as u8,
        ((pm >> 10u32) & 31) as u8,
        ((pm >> 5u32) & 31) as u8,
        (pm & 31) as u8,
    ]
}

proof fn lemma_low5(x: u32)
    ensures
        x & 31 < 32,
{
    assert(x & 31 < 32) by (bit_vector);
}

fn checksum(hrp: &Vec<char>, data: &Vec<u8>) -> (r: Vec<u8>)
    requires
        hrp_ok(hrp@),
    ensures
        r@ == checksum_spec(hrp@, data@),
        r@.len() == 6,
        groups_in_range(r@),
{
    let n = hrp.len();
    let mut vals: Vec<u8> = Vec::new();
    let mut i: usize = 0;
    while i < n
        invariant
            hrp_ok(hrp@),
            n == hrp@.len(),
            i <= n,
            vals@ =~= hrp_expand(hrp@).subrange(0, i as int),
        decreases n - i,
    {
        vals.push(((hrp[i] as u32) >> 5u32) as u8);
        proof {
            assert(vals@ =~= hrp_expand(hrp@).subrange(0, i as int + 1));
        }
        i = i + 1;
    }
    vals.push(0u8);
    proof {
        assert(vals@ =~= hrp_expand(hrp@).subrange(0, n as int + 1));
    }
    let mut i: usize = 0;
    while i < n
        invariant
            hrp_ok(hrp@),
            n == hrp@.len(),
            i <= n,
            vals@ =~= hrp_expand(hrp@).subrange(0, n as int + 1 + i as int),
        decreases n - i,
    {
        vals.push(((hrp[i] as u32) & 31) as u8);
        proof {
            assert(vals@ =~= hrp_expand(hrp@).subrange(0, n as int + 1 + i as int + 1));
        }
        i = i + 1;
    }
    proof {
        assert(vals@ =~= hrp_expand(hrp@));
    }
    let ghost expanded = vals@;
    let mut i: usize = 0;
    while i < data.len()
        invariant
            i <= data@.len(),
            expanded == hrp_expand(hrp@),
            vals@ =~= expanded + data@.subrange(0, i as int),
        decreases data@.len() - i,
    {
        vals.push(data[i]);
        proof {
            assert(vals@ =~= expanded + data@.subrange(0, i as int + 1));
        }
        i = i + 1;
    }
    proof {
        assert(vals@ =~= expanded + data@);
    }
    vals.push(0u8);
    vals.push(0u8);
    vals.push(0u8);
    vals.push(0u8);
    vals.push(0u8);
    vals.push(0u8);
    proof {
        assert(vals@ =~= hrp_expand(hrp@) + data@ + seq![0u8, 0u8, 0u8, 0u8, 0u8, 0u8]);
    }
    let pm = polymod_exec(&vals) ^ 1u32;
    let mut r: Vec<u8> = Vec::new();
    r.push(((pm >> 25u32) & 31) as u8);
    r.push(((pm >> 20u32) & 31) as u8);
    r.push(((pm >> 15u32) & 31) as u8);
    r.push(((pm >> 10u32) & 31) as u8);
    r.push(((pm >> 5u32) & 31) as u8);
    r.push((pm & 31) as u8);
    proof {
        assert(r@ =~= checksum_spec(hrp@, data@));
        lemma_low5(pm >> 25u32);
        lemma_low5(pm >> 20u32);
        lemma_low5(pm >> 15u32);
        lemma_low5(pm >> 10u32);
        lemma_low5(pm >> 5u32);
        lemma_low5(pm);
    }
    r
}

/// The full encoding of a 32-byte payload under a human-readable part.
pub open spec fn encode_spec(hrp: Seq<char>, bytes: Seq<u8>) -> Seq<char> {
    let data = to_base32_spec(bytes);
    let full = data + checksum_spec(hrp, data);
    hrp + seq!['1'] + full.map_values(|v: u8| char_of_u5(v))
}

/// Appends one character to a string.
///
/// Relies on `String::push`: it adds exactly the given character at the
/// end of the string.
#[verifier::external_body]
fn push_char(s: &mut String, c: char)
    ensures
        final(s)@ == old(s)@.push(c),
{
    s.push(c);
}

/// Builds the string spelled by a character vector.
pub(crate) fn chars_to_string(v: &Vec<char>) -> (r: String)
    ensures
        r@ == v@,
{
    let mut s = String::new();
    let mut i: usize = 0;
    while i < v.len()
        invariant
            i <= v@.len(),
            s@ =~= v@.subrange(0, i as int),
        decreases v@.len() - i,
    {
        push_char(&mut s, v[i]);
        proof {
            assert(s@ =~= v@.subrange(0, i as int + 1));
        }
        i = i + 1;
    }
    proof {
        assert(s@ =~= v@);
    }
    s
}

/// The characters of a string slice, in order.
pub(crate) fn str_to_chars(s: &str) -> (r: Vec<char>)
    ensures
        r@ == s@,
{
    let n = s.unicode_len();
    let mut r: Vec<char> = Vec::new();
    let mut i: usize = 0;
    while i < n
        invariant
            n == s@.len(),
            i <= n,
            r@ =~= s@.subrange(0, i as int),
        decreases n - i,
    {
        r.push(s.get_char(i));
        proof {
            assert(r@ =~= s@.subrange(0, i as int + 1));
        }
        i = i + 1;
    }
    proof {
        assert(r@ =~= s@);
    }
    r
}

/// The encoding of a 32-byte payload, as a character vector.
pub(crate) fn encode_chars(hrp: &Vec<char>, bytes: &Vec<u8>) -> (r: Vec<char>)
    requires
        hrp_ok(hrp@),
        bytes@.len() == 32,
    ensures
        r@ == encode_spec(hrp@, bytes@),
        r@.len() == hrp@.len() + 59,
{
    let ghost goal = encode_spec(hrp@, bytes@);
    let mut r: Vec<char> = Vec::new();
    let mut i: usize = 0;
    while i < hrp.len()
        invariant
            i <= hrp@.len(),
            r@ =~= hrp@.subrange(0, i as int),
        decreases hrp@.len() - i,
    {
        r.push(hrp[i]);
        proof {
            assert(r@ =~= hrp@.subrange(0, i as int + 1));
        }
        i = i + 1;
    }
    r.push('1');
    proof {
        assert(r@ =~= hrp@ + seq!['1']);
    }
    let data = to_base32(bytes);
    let cs = checksum(hrp, &data);
    let ghost full = data@ + cs@;
    let ghost head = hrp@ + seq!['1'];
    let mut i: usize = 0;
    while i < data.len()
        invariant
            data@.len() == 52,
            groups_in_range(data@),
            i <= 52,
            head == hrp@ + seq!['1'],
            full == data@ + cs@,
            r@ =~= head + full.subrange(0, i as int).map_values(|v: u8| char_of_u5(v)),
        decreases data@.len() - i,
    {
        r.push(u5_to_char(data[i]));
        proof {
            assert(full.subrange(0, i as int + 1).map_values(|v: u8| char_of_u5(v)) =~= full
                .subrange(0, i as int).map_values(|v: u8| char_of_u5(v)).push(
                char_of_u5(full[i as int]),
            ));
            assert(r@ =~= head + full.subrange(0, i as int + 1).map_values(
                |v: u8| char_of_u5(v),
            ));
        }
        i = i + 1;
    }
    let mut i: usize = 0;
    while i < cs.len()
        invariant
            data@.len() == 52,
            cs@.len() == 6,
            groups_in_range(cs@),
            i <= 6,
            head == hrp@ + seq!['1'],
            full == data@ + cs@,
            r@ =~= head + full.subrange(0, 52 + i as int).map_values(|v: u8| char_of_u5(v)),
        decreases cs@.len() - i,
    {
        r.push(u5_to_char(cs[i]));
        proof {
            assert(full.subrange(0, 52 + i as int + 1).map_values(|v: u8| char_of_u5(v)) =~= full
                .subrange(0, 52 + i as int).map_values(|v: u8| char_of_u5(v)).push(
                char_of_u5(full[52 + i as int]),
            ));
            assert(r@ =~= head + full.subrange(0, 52 + i as int + 1).map_values(
                |v: u8| char_of_u5(v),
            ));
        }
        i = i + 1;
    }
    proof {
        assert(full.subrange(0, 58) =~= full);
        assert(r@ =~= goal);
    }
    r
}

/// The encoding of a 32-byte payload, as a string.
pub fn encode(hrp: &Vec<char>, bytes: &Vec<u8>) -> (r: String)
    requires
        hrp_ok(hrp@),
        bytes@.len() == 32,
    ensures
        r@ == encode_spec(hrp@, bytes@),
{
    let chars = encode_chars(hrp, bytes);
    chars_to_string(&chars)
}

/// The index of the last separator character `'1'`, or -1 where there
/// is none.
pub open spec fn last_one(s: Seq<char>) -> int
    decreases s.len(),
{
    if s.len() == 0 {
        -1
    } else if s[s.len() - 1] == '1' {
        s.len() - 1
    } else {
        last_one(s.drop_last())
    }
}

proof fn lemma_last_one_at(s: Seq<char>, p: int)
    requires
        0 <= p < s.len(),
        s[p] == '1',
        forall|k: int| p < k < s.len() ==> s[k] != '1',
    ensures
        last_one(s) == p,
    decreases s.len(),
{
    if p == s.len() - 1 {
    } else {
        lemma_last_one_at(s.drop_last(), p);
    }
}

proof fn lemma_last_one_none(s: Seq<char>)
    requires
        forall|k: int| 0 <= k < s.len() ==> s[k] != '1',
    ensures
        last_one(s) == -1,
    decreases s.len(),
{
    if s.len() > 0 {
        lemma_last_one_none(s.drop_last());
    }
}

/// What `decode` accepts and returns: the string is cut at its last
/// separator; the part before is the human-readable part, the 58
/// characters after it carry 52 payload groups and 6 checksum values,
/// which must match the checksum recomputed over both.
pub open spec fn decode_spec(s: Seq<char>) -> Option<(Seq<char>, Seq<u8>)> {
    let p = last_one(s);
    if 1 <= p && s.len() == p + 59 {
        let hrp = s.subrange(0, p);
        let rest = s.subrange(p + 1, s.len() as int);
        if hrp_ok(hrp) && (forall|i: int| 0 <= i < 58 ==> in_alphabet(#[trigger] rest[i])) {
            let vals = rest.map_values(|c: char| u5_of_char(c));
            let data = vals.subrange(0, 52);
            if vals.subrange(52, 58) == checksum_spec(hrp, data) {
                match from_base32_spec(data) {
                    Some(b) => Some((hrp, b)),
                    None => None,
                }
            } else {
                None
            }
        } else {
            None
        }
    } else {
        None
    }
}

/// Decodes an encoded key: the human-readable part and the 32-byte
/// payload, or `None` where the string is not a well-formed encoding.
#[verifier::loop_isolation(false)]
pub fn decode(s: &str) -> (r: Option<(String, Vec<u8>)>)
    ensures
        r is Some <==> decode_spec(s@) is Some,
        r matches Some(p) ==> decode_spec(s@) matches Some(q) && p.0@ == q.0 && p.1@ == q.1,
{
    let chars = str_to_chars(s);
    let n = chars.len();
    // find the last separator
    let mut p: usize = n;
    let mut i: usize = n;
    while i > 0
        invariant
            n == chars@.len(),
            chars@ == s@,
            i <= n,
            p <= n,
            p == n ==> forall|k: int| i <= k < n ==> chars@[k] != '1',
            p < n ==> i <= p && chars@[p as int] == '1' && (forall|k: int|
                p < k < n ==> chars@[k] != '1'),
        decreases i,
    {
        i = i - 1;
        if p == n && chars[i] == '1' {
            p = i;
        }
    }
    if p == n {
        proof {
            lemma_last_one_none(s@);
        }
        return None;
    }
    proof {
        lemma_last_one_at(s@, p as int);
    }
    if p < 1 || n < p || n - p != 59 {
        return None;
    }
    // human-readable part
    let mut hrp: Vec<char> = Vec::new();
    let mut i: usize = 0;
    while i < p
        invariant
            n == chars@.len(),
            chars@ == s@,
            p < n,
            i <= p,
            hrp@ =~= s@.subrange(0, i as int),
            forall|k: int| 0 <= k < i ==> 33 <= (#[trigger] s@[k]) as u32 <= 126,
        decreases p - i,
    {
        let c = chars[i];
        let cv = c as u32;
        if cv < 33 || cv > 126 {
            proof {
                assert(s@.subrange(0, p as int)[i as int] == s@[i as int]);
                assert(!(33 <= (s@.subrange(0, p as int)[i as int]) as u32 <= 126));
                assert(!hrp_ok(s@.subrange(0, p as int)));
            }
            return None;
        }
        hrp.push(c);
        proof {
            assert(hrp@ =~= s@.subrange(0, i as int + 1));
        }
        i = i + 1;
    }
    proof {
        assert(hrp@ =~= s@.subrange(0, p as int));
        assert(hrp_ok(hrp@));
    }
    // data characters
    let ghost rest = s@.subrange(p as int + 1, n as int);
    let mut vals: Vec<u8> = Vec::new();
    let mut i: usize = p + 1;
    while i < n
        invariant
            n == chars@.len(),
            chars@ == s@,
            p + 59 == n,
            p + 1 <= i <= n,
            rest == s@.subrange(p as int + 1, n as int),
            vals@ =~= rest.subrange(0, i - p - 1).map_values(|c: char| u5_of_char(c)),
            forall|k: int| 0 <= k < i - p - 1 ==> in_alphabet(#[trigger] rest[k]),
        decreases n - i,
    {
        let v = char_to_u5(chars[i]);
        if v >= 32 {
            proof {
                assert(rest[i - p - 1] == s@[i as int]);
                assert(!in_alphabet(rest[i - p - 1]));
            }
            return None;
        }
        vals.push(v);
        proof {
            assert(rest.subrange(0, i - p).map_values(|c: char| u5_of_char(c)) =~= rest.subrange(
                0,
                i - p - 1,
            ).map_values(|c: char| u5_of_char(c)).push(u5_of_char(rest[i - p - 1])));
            assert(vals@ =~= rest.subrange(0, i - p).map_values(|c: char| u5_of_char(c)));
        }
        i = i + 1;
    }
    proof {
        assert(rest.subrange(0, 58) =~= rest);
        assert(vals@ =~= rest.map_values(|c: char| u5_of_char(c)));
    }
    // split into payload groups and checksum, and verify the checksum
    let mut data: Vec<u8> = Vec::new();
    let mut i: usize = 0;
    while i < 52
        invariant
            vals@.len() == 58,
            i <= 52,
            data@ =~= vals@.subrange(0, i as int),
        decreases 52 - i,
    {
        data.push(vals[i]);
        proof {
            assert(data@ =~= vals@.subrange(0, i as int + 1));
        }
        i = i + 1;
    }
    proof {
        assert(data@ =~= vals@.subrange(0, 52));
    }
    let expected = checksum(&hrp, &data);
    let mut i: usize = 0;
    while i < 6
        invariant
            vals@.len() == 58,
            expected@.len() == 6,
            i <= 6,
            forall|k: int| 0 <= k < i ==> vals@[52 + k] == expected@[k],
        decreases 6 - i,
    {
        if vals[52 + i] != expected[i] {
            proof {
                assert(vals@.subrange(52, 58)[i as int] != expected@[i as int]);
                assert(expected@ == checksum_spec(
                    s@.subrange(0, p as int),
                    vals@.subrange(0, 52),
                ));
                assert(vals@.subrange(52, 58) != checksum_spec(
                    s@.subrange(0, p as int),
                    vals@.subrange(0, 52),
                ));
            }
            return None;
        }
        i = i + 1;
    }
    proof {
        assert(vals@.subrange(52, 58) =~= expected@);
    }
    // reassemble the payload
    match from_base32(&data) {
        Some(bytes) => {
            let hrp_string = chars_to_string(&hrp);
            Some((hrp_string, bytes))
        },
        None => None,
    }
}

/// Decoding inverts encoding: every encoded 32-byte payload decodes
/// back to the same human-readable part and payload.
pub proof fn lemma_decode_encode(hrp: Seq<char>, bytes: Seq<u8>)
    requires
        hrp_ok(hrp),
        bytes.len() == 32,
    ensures
        decode_spec(encode_spec(hrp, bytes)) == Some((hrp, bytes)),
{
    let data = to_base32_spec(bytes);
    let cs = checksum_spec(hrp, data);
    let full = data + cs;
    let mapped = full.map_values(|v: u8| char_of_u5(v));
    let e = encode_spec(hrp, bytes);
    let p = hrp.len() as int;
    assert(data.len() == 52);
    assert forall|k: int| 0 <= k < 52 implies data[k] < 32 by {
        crate::base32::lemma_u5_in_range(bytes, k);
    }
    assert forall|k: int| 0 <= k < 6 implies cs[k] < 32 by {
        lemma_low5_values(hrp, data, k);
    }
    assert(e.len() == p + 59);
    // the separator written at position p is the last '1'
    assert(e[p] == '1');
    assert forall|k: int| p < k < e.len() implies e[k] != '1' by {
        assert(e[k] == mapped[k - p - 1]);
        assert(mapped[k - p - 1] == char_of_u5(full[k - p - 1]));
        lemma_alphabet_inverse(full[k - p - 1]);
    }
    lemma_last_one_at(e, p);
    // the cut recovers the parts
    assert(e.subrange(0, p) =~= hrp);
    let rest = e.subrange(p + 1, e.len() as int);
    assert(rest =~= mapped);
    assert forall|i: int| 0 <= i < 58 implies in_alphabet(#[trigger] rest[i]) by {
        assert(rest[i] == char_of_u5(full[i]));
        lemma_alphabet_inverse(full[i]);
    }
    let vals = rest.map_values(|c: char| u5_of_char(c));
    assert forall|i: int| 0 <= i < 58 implies vals[i] == full[i] by {
        assert(vals[i] == u5_of_char(char_of_u5(full[i])));
        lemma_alphabet_inverse(full[i]);
    }
    assert(vals =~= full);
    assert(vals.subrange(0, 52) =~= data);
    assert(vals.subrange(52, 58) =~= cs);
    lemma_base32_round_trip(bytes);
    assert(from_base32_spec(data) == Some(bytes));
}

proof fn lemma_low5_values(hrp: Seq<char>, data: Seq<u8>, k: int)
    requires
        0 <= k < 6,
    ensures
        checksum_spec(hrp, data)[k] < 32,
{
    let pm = polymod(hrp_expand(hrp) + data + seq![0u8, 0u8, 0u8, 0u8, 0u8, 0u8]) ^ 1u32;
    lemma_low5(pm >> 25u32);
    lemma_low5(pm >> 20u32);
    lemma_low5(pm >> 15u32);
    lemma_low5(pm >> 10u32);
    lemma_low5(pm >> 5u32);
    lemma_low5(pm);
}

} // verus!
