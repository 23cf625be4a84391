//! Little-endian integers in byte strings.

use vstd::prelude::*;

verus! {

/// The two bytes of `v`, lowest first, for `0 <= v < 2^16`.
pub open spec fn le_bytes2(v: int) -> Seq<u8> {
    seq![(v % 256) as u8, (v / 256 % 256) as u8]
}

/// The four bytes of `v`, lowest first, for `0 <= v < 2^32`.
pub open spec fn le_bytes4(v: int) -> Seq<u8> {
    seq![
        (v % 256) as u8,
        (v / 256 % 256) as u8,
        (v / 256 / 256 % 256) as u8,
        (v / 256 / 256 / 256 % 256) as u8,
    ]
}

/// The number whose two little-endian bytes stand at `i` in `s`.
pub open spec fn le_value2(s: Seq<u8>, i: int) -> int {
    s[i] + 256 * s[i + 1]
}

/// The number whose four little-endian bytes stand at `i` in `s`.
pub open spec fn le_value4(s: Seq<u8>, i: int) -> int {
    s[i] + 256 * s[i + 1] + 65536 * s[i + 2] + 16777216 * s[i + 3]
}

/// The unsigned 32-bit image of a signed 32-bit number (two's complement).
pub open spec fn twos32(d: int) -> int {
    if d < 0 {
        d + 0x1_0000_0000
    } else {
        d
    }
}

/// The signed 32-bit number with the unsigned image `u`.
pub open spec fn signed32(u: int) -> int {
    if u >= 0x8000_0000 {
        u - 0x1_0000_0000
    } else {
        u
    }
}

/// A byte in front of a number: dividing by 256 takes it off again.
pub proof fn lemma_low_byte(b: int, rest: int)
    requires
        0 <= b < 256,
    ensures
        (b + 256 * rest) % 256 == b,
        (b + 256 * rest) / 256 == rest,
{
}

/// A number is its low byte in front of the rest.
pub proof fn lemma_split_byte(v: int)
    ensures
        v == v % 256 + 256 * (v / 256),
        0 <= v % 256 < 256,
{
}

/// Reading back what `le_bytes2` wrote gives the number.
pub proof fn lemma_le2_value(v: int, s: Seq<u8>, i: int)
    requires
        0 <= v < 0x1_0000,
        0 <= i,
        i + 2 <= s.len(),
        s.subrange(i, i + 2) == le_bytes2(v),
    ensures
        le_value2(s, i) == v,
{
    assert(s[i] == s.subrange(i, i + 2)[0]);
    assert(s[i + 1] == s.subrange(i, i + 2)[1]);
    lemma_split_byte(v);
    lemma_split_byte(v / 256);
}

/// Reading back what `le_bytes4` wrote gives the number.
pub proof fn lemma_le4_value(v: int, s: Seq<u8>, i: int)
    requires
        0 <= v < 0x1_0000_0000,
        0 <= i,
        i + 4 <= s.len(),
        s.subrange(i, i + 4) == le_bytes4(v),
    ensures
        le_value4(s, i) == v,
{
    let t = s.subrange(i, i + 4);
    assert(s[i] == t[0]);
    assert(s[i + 1] == t[1]);
    assert(s[i + 2] == t[2]);
    assert(s[i + 3] == t[3]);
    let q1 = v / 256;
    let q2 = q1 / 256;
    let q3 = q2 / 256;
    lemma_split_byte(v);
    lemma_split_byte(q1);
    lemma_split_byte(q2);
    lemma_split_byte(q3);
    assert(q3 < 256);
    assert(t[0] == v % 256);
    assert(t[1] == q1 % 256);
    assert(t[2] == q2 % 256);
    assert(t[3] == q3 % 256);
}

/// Writing the number that four bytes spell gives those bytes.
pub proof fn lemma_le4_bytes(s: Seq<u8>, i: int)
    requires
        0 <= i,
        i + 4 <= s.len(),
    ensures
        0 <= le_value4(s, i) < 0x1_0000_0000,
        le_bytes4(le_value4(s, i)) == s.subrange(i, i + 4),
{
    let b0 = s[i] as int;
    let b1 = s[i + 1] as int;
    let b2 = s[i + 2] as int;
    let b3 = s[i + 3] as int;
    let v = le_value4(s, i);
    lemma_low_byte(b0, b1 + 256 * b2 + 65536 * b3);
    lemma_low_byte(b1, b2 + 256 * b3);
    lemma_low_byte(b2, b3);
    lemma_low_byte(b3, 0);
    assert(v == b0 + 256 * (b1 + 256 * b2 + 65536 * b3));
    assert(v / 256 == b1 + 256 * (b2 + 256 * b3));
    assert(v / 256 / 256 == b2 + 256 * b3);
    assert(v / 256 / 256 / 256 == b3 + 256 * 0);
    assert(le_bytes4(v) =~= s.subrange(i, i + 4));
}

/// Writing the number that two bytes spell gives those bytes.
pub proof fn lemma_le2_bytes(s: Seq<u8>, i: int)
    requires
        0 <= i,
        i + 2 <= s.len(),
    ensures
        0 <= le_value2(s, i) < 0x1_0000,
        le_bytes2(le_value2(s, i)) == s.subrange(i, i + 2),
{
    let b0 = s[i] as int;
    let b1 = s[i + 1] as int;
    lemma_low_byte(b0, b1);
    lemma_low_byte(b1, 0);
    assert(le_value2(s, i) / 256 == b1 + 256 * 0);
    assert(le_bytes2(le_value2(s, i)) =~= s.subrange(i, i + 2));
}

/// Appends `v` as two little-endian bytes.
pub fn push_u16_le(out: &mut Vec<u8>, v: u16)
    ensures
        final(out)@ == old(out)@ + le_bytes2(v as int),
{
    out.push((v % 256) as u8);
    out.push((v / 256) as u8);
    assert(out@ =~= old(out)@ + le_bytes2(v as int));
}

/// Appends `v` as four little-endian bytes.
pub fn push_u32_le(out: &mut Vec<u8>, v: u32)
    ensures
        final(out)@ == old(out)@ + le_bytes4(v as int),
{
    out.push((v % 256) as u8);
    out.push((v / 256 % 256) as u8);
    out.push((v / 256 / 256 % 256) as u8);
    out.push((v / 256 / 256 / 256) as u8);
    assert(out@ =~= old(out)@ + le_bytes4(v as int));
}

/// Appends `d` as four little-endian bytes in two's complement.
pub fn push_i32_le(out: &mut Vec<u8>, d: i32)
    ensures
        final(out)@ == old(out)@ + le_bytes4(twos32(d as int)),
{
    let wide: i64 = d as i64;
    let image: i64 = if wide < 0 {
        wide + 0x1_0000_0000
    } else {
        wide
    };
    push_u32_le(out, image as u32);
}

/// Reads two little-endian bytes at `i`.
pub fn read_u16_le(s: &[u8], i: usize) -> (v: u16)
    requires
        i + 2 <= s.len(),
    ensures
        v == le_value2(s@, i as int),
{
    let lo: u16 = s[i] as u16;
    let hi: u16 = s[i + 1] as u16;
    lo + 256 * hi
}

/// Reads four little-endian bytes at `i`.
pub fn read_u32_le(s: &[u8], i: usize) -> (v: u32)
    requires
        i + 4 <= s.len(),
    ensures
        v == le_value4(s@, i as int),
{
    let b0: u32 = s[i] as u32;
    let b1: u32 = s[i + 1] as u32;
    let b2: u32 = s[i + 2] as u32;
    let b3: u32 = s[i + 3] as u32;
    b0 + 256 * b1 + 65536 * b2 + 16777216 * b3
}

/// Reads four little-endian bytes at `i` as a number in two's complement.
pub fn read_i32_le(s: &[u8], i: usize) -> (d: i32)
    requires
        i + 4 <= s.len(),
    ensures
        d == signed32(le_value4(s@, i as int)),
{
    let image: i64 = read_u32_le(s, i) as i64;
    let wide: i64 = if image >= 0x8000_0000 {
        image - 0x1_0000_0000
    } else {
        image
    };
    wide as i32
}

} // verus!
