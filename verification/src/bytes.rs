//! Little-endian integer fields and rounded-up division, shared by the
//! texture and sprite parsers and by the DDS writer.
use vstd::prelude::*;

verus! {

/// The unsigned 16-bit little-endian value stored at `off` in `s`.
pub open spec fn le_u16(s: Seq<u8>, off: int) -> int {
    s[off] + 256 * s[off + 1]
}

/// The unsigned 32-bit little-endian value stored at `off` in `s`.
pub open spec fn le_u32(s: Seq<u8>, off: int) -> int {
    s[off] + 256 * s[off + 1] + 65536 * s[off + 2] + 16777216 * s[off + 3]
}

/// The unsigned 64-bit little-endian value stored at `off` in `s`.
pub open spec fn le_u64(s: Seq<u8>, off: int) -> int {
    le_u32(s, off) + 4294967296 * le_u32(s, off + 4)
}

/// The four bytes of `x`, least significant first.
pub open spec fn u32_le_bytes(x: u32) -> Seq<u8> {
    seq![
        (x % 256) as u8,
        ((x / 256) % 256) as u8,
        ((x / 65536) % 256) as u8,
        (x / 16777216) as u8,
    ]
}

/// `a / b` rounded up.
pub open spec fn ceil_div(a: int, b: int) -> int {
    if a % b == 0 {
        a / b
    } else {
        a / b + 1
    }
}

/// Reads the 16-bit little-endian field at `off`.
pub fn read_u16_le(data: &[u8], off: usize) -> (r: u16)
    requires
        off + 2 <= data@.len(),
    ensures
        r == le_u16(data@, off as int),
{
    data[off] as u16 + (data[off + 1] as u16) * 256
}

/// Reads the 32-bit little-endian field at `off`.
pub fn read_u32_le(data: &[u8], off: usize) -> (r: u32)
    requires
        off + 4 <= data@.len(),
    ensures
        r == le_u32(data@, off as int),
{
    data[off] as u32 + (data[off + 1] as u32) * 256 + (data[off + 2] as u32) * 65536 + (data[off
        + 3] as u32) * 16777216
}

/// Reads the 64-bit little-endian field at `off`.
pub fn read_u64_le(data: &[u8], off: usize) -> (r: u64)
    requires
        off + 8 <= data@.len(),
    ensures
        r == le_u64(data@, off as int),
{
    let n = data.len();
    let lo = read_u32_le(data, off);
    let hi = read_u32_le(data, off + 4);
    lo as u64 + (hi as u64) * 4294967296
}

/// Appends the four little-endian bytes of `x`.
pub fn push_u32_le(v: &mut Vec<u8>, x: u32)
    ensures
        final(v)@ == old(v)@ + u32_le_bytes(x),
{
    v.push((x % 256) as u8);
    v.push(((x / 256) % 256) as u8);
    v.push(((x / 65536) % 256) as u8);
    v.push((x / 16777216) as u8);
    assert(final(v)@ =~= old(v)@ + u32_le_bytes(x));
}

/// `a / b` rounded up, as `u32::div_ceil` computes it.
pub fn div_ceil_u32(a: u32, b: u32) -> (r: u32)
    requires
        b > 0,
    ensures
        r == ceil_div(a as int, b as int),
        a <= r * b < a + b,
{
    proof {
        lemma_ceil_div_bounds(a as int, b as int);
    }
    let d = a / b;
    if a % b == 0 {
        d
    } else {
        assert(d < u32::MAX) by (nonlinear_arith)
            requires
                d == a / b,
                b > 0,
                a % b != 0,
                a <= u32::MAX,
        ;
        d + 1
    }
}

/// Rounded-up division gives the least multiplier that reaches `a`:
/// `ceil_div(a, b) * b` is at least `a` and less than `a + b`.
pub proof fn lemma_ceil_div_bounds(a: int, b: int)
    requires
        0 <= a,
        0 < b,
    ensures
        0 <= ceil_div(a, b),
        a <= ceil_div(a, b) * b < a + b,
{
    vstd::arithmetic::div_mod::lemma_fundamental_div_mod(a, b);
    vstd::arithmetic::div_mod::lemma_div_pos_is_pos(a, b);
    assert(a <= ceil_div(a, b) * b < a + b) by (nonlinear_arith)
        requires
            a == b * (a / b) + a % b,
            0 <= a % b < b,
            ceil_div(a, b) == (if a % b == 0 { a / b } else { a / b + 1 }),
    ;
}

/// Reading back the four bytes that `u32_le_bytes` writes gives the value.
pub proof fn lemma_u32_le_roundtrip(x: u32)
    ensures
        u32_le_bytes(x).len() == 4,
        le_u32(u32_le_bytes(x), 0) == x,
{
    let b = u32_le_bytes(x);
    assert(b[0] + 256 * b[1] + 65536 * b[2] + 16777216 * b[3] == x) by (nonlinear_arith)
        requires
            b[0] == x % 256,
            b[1] == (x / 256) % 256,
            b[2] == (x / 65536) % 256,
            b[3] == x / 16777216,
            0 <= x <= u32::MAX,
    ;
}

} // verus!
