//! What holds of the block-linear layout for power-of-two GOB block
//! heights: every byte of every block has an address of its own, all of them
//! inside the first mip level, so that reading a surface back out undoes
//! writing it.
use vstd::prelude::*;
use vstd::arithmetic::div_mod::{lemma_fundamental_div_mod, lemma_fundamental_div_mod_converse};
use vstd::arithmetic::power2::{pow2, lemma_pow2_adds, lemma2_to64};
use vstd::bits::{lemma_u32_shl_is_mul, lemma_u32_pow2_no_overflow, lemma_u32_low_bits_mask_is_mod, low_bits_mask};
use vstd::std_specs::bits::{u32_trailing_zeros, axiom_u32_trailing_zeros};
use vstd::arithmetic::div_mod::{lemma_div_denominator, lemma_div_is_ordered};
use crate::bytes::ceil_div;
use crate::dds::block_data_len;
use crate::swizzle::{
    block_offset_spec, blocks_for, deswizzle_byte, deswizzled, effective_bpb, layout_ok, lemma_swizzle_prefix_len,
    mip0_bytes, swizzle_ok, swizzle_prefix, swizzled,
};

verus! {

/// Address, inside a swizzled surface whose GOB blocks are `gby` GOBs high
/// and whose rows are `wig` GOBs wide, of byte column `x` (in bytes from
/// the left edge) of block row `y`.
pub open spec fn gob_offset(x: int, y: int, gby: int, wig: int) -> int {
    let yh = y / 8;
    (yh / gby) * (512 * gby * wig) + (x / 64) * (512 * gby) + (yh % gby) * 512 + ((x % 64) / 32)
        * 256 + ((y % 8) / 2) * 64 + ((x % 32) / 16) * 32 + (y % 2) * 16 + x % 16
}

/// The byte column that a swizzled address belongs to.
pub open spec fn gob_column(off: int, gby: int, wig: int) -> int {
    let q = (off / 16) % 32;
    let rest = (off / 16) / 32;
    ((rest / gby) % wig) * 64 + (q / 16) * 32 + (((q % 16) % 4) / 2) * 16 + off % 16
}

/// The block row that a swizzled address belongs to.
pub open spec fn gob_row(off: int, gby: int, wig: int) -> int {
    let q = (off / 16) % 32;
    let rest = (off / 16) / 32;
    (((rest / gby) / wig) * gby + rest % gby) * 8 + ((q % 16) / 4) * 2 + ((q % 16) % 4) % 2
}

/// The address of a byte determines its column and row: `gob_column` and
/// `gob_row` read them back, as long as the column lies inside the surface
/// width (`x / 64 < wig`).
#[verifier::spinoff_prover]
pub proof fn lemma_gob_offset_decode(x: int, y: int, gby: int, wig: int)
    requires
        0 <= x,
        0 <= y,
        0 < gby,
        0 < wig,
        x / 64 < wig,
    ensures
        gob_column(gob_offset(x, y, gby, wig), gby, wig) == x,
        gob_row(gob_offset(x, y, gby, wig), gby, wig) == y,
{
    let yh = y / 8;
    let a = yh / gby;
    let c = yh % gby;
    let bb = x / 64;
    let d = (x % 64) / 32;
    let e = (y % 8) / 2;
    let f = (x % 32) / 16;
    let g = y % 2;
    let h = x % 16;
    let off = gob_offset(x, y, gby, wig);
    lemma_fundamental_div_mod(yh, gby);
    assert(0 <= c < gby);
    assert(0 <= a);
    let q = d * 16 + e * 4 + f * 2 + g;
    let rest = a * gby * wig + bb * gby + c;
    assert(0 <= q < 32);
    assert(off == rest * 512 + q * 16 + h) by (nonlinear_arith)
        requires
            off == a * (512 * gby * wig) + bb * (512 * gby) + c * 512 + d * 256 + e * 64 + f * 32
                + g * 16 + h,
            rest == a * gby * wig + bb * gby + c,
            q == d * 16 + e * 4 + f * 2 + g,
    ;
    assert(off == (rest * 32 + q) * 16 + h) by (nonlinear_arith)
        requires
            off == rest * 512 + q * 16 + h,
    ;
    lemma_fundamental_div_mod_converse(off, 16, rest * 32 + q, h);
    lemma_fundamental_div_mod_converse(rest * 32 + q, 32, rest, q);
    assert(rest == (a * wig + bb) * gby + c) by (nonlinear_arith)
        requires
            rest == a * gby * wig + bb * gby + c,
    ;
    lemma_fundamental_div_mod_converse(rest, gby, a * wig + bb, c);
    lemma_fundamental_div_mod_converse(a * wig + bb, wig, a, bb);
    lemma_fundamental_div_mod_converse(q, 16, d, e * 4 + f * 2 + g);
    lemma_fundamental_div_mod_converse(e * 4 + f * 2 + g, 4, e, f * 2 + g);
    lemma_fundamental_div_mod_converse(f * 2 + g, 2, f, g);
    assert(x == bb * 64 + d * 32 + f * 16 + h);
    assert(yh == a * gby + c) by (nonlinear_arith)
        requires
            yh == gby * (yh / gby) + yh % gby,
            a == yh / gby,
            c == yh % gby,
    ;
    assert(y == yh * 8 + e * 2 + g);
}

/// `gby` is a power of two, as every GOB block height of the format is.
pub open spec fn is_power_of_two(gby: u32) -> bool {
    exists|k: nat| k < 32 && #[trigger] pow2(k) == gby
}

/// For a power-of-two GOB block height the shifts and masks of the block
/// address are divisions and remainders by that height.
pub proof fn lemma_block_offset_is_gob_offset(bx: int, by: int, gby: u32, wig: int, b: int)
    requires
        is_power_of_two(gby),
        0 <= bx,
        0 <= by <= u32::MAX,
        0 <= b,
    ensures
        block_offset_spec(bx, by, gby, wig, b) == gob_offset(bx * b, by, gby as int, wig),
{
    let k = choose|k: nat| k < 32 && #[trigger] pow2(k) == gby;
    lemma_u32_pow2_no_overflow(k);
    lemma_u32_shl_is_mul(1u32, k as u32);
    let kk = k as u32;
    assert(gby == (1u32 << kk));
    axiom_u32_trailing_zeros(gby);
    let t = u32_trailing_zeros(gby);
    assert(t < 32);
    assert((gby >> t) & 1u32 == 1u32);
    assert(t < 32 && kk < 32 && gby == (1u32 << kk) && (gby >> t) & 1u32 == 1u32 ==> t == kk)
        by (bit_vector);
    assert(t == k);
    lemma_pow2_adds(9, k);
    lemma2_to64();
    assert(pow2((9 + t) as nat) == 512 * gby);
    let yh = by / 8;
    lemma_u32_low_bits_mask_is_mod(yh as u32, k);
    assert(low_bits_mask(k) == gby - 1);
    assert(((yh as u32) & ((gby - 1) as u32)) == yh % (gby as int));
}

/// Moving right by `t` bytes inside one 16-byte row of a GOB moves the
/// address by `t` as well.
pub proof fn lemma_gob_offset_step(x: int, t: int, y: int, gby: int, wig: int)
    requires
        0 <= x < 0x1_0000_0000_0000,
        0 <= t,
        x % 16 + t < 16,
    ensures
        gob_offset(x + t, y, gby, wig) == gob_offset(x, y, gby, wig) + t,
        (x + t) / 64 == x / 64,
{
    let xx = x as u64;
    let tt = t as u64;
    assert(xx < 0x1_0000_0000_0000 && tt < 16 && xx % 16 + tt < 16 ==> {
        &&& (xx + tt) / 64 == xx / 64
        &&& ((xx + tt) % 64) / 32 == (xx % 64) / 32
        &&& ((xx + tt) % 32) / 16 == (xx % 32) / 16
        &&& (xx + tt) % 16 == xx % 16 + tt
    }) by (bit_vector);
}

/// Every address of a byte inside the surface width and height lies inside
/// the first mip level.
pub proof fn lemma_gob_offset_bound(x: int, y: int, gby: u32, wig: u32, hb: int)
    requires
        0 <= x,
        0 <= y < hb,
        0 < gby,
        0 < wig,
        x / 64 < wig,
    ensures
        0 <= gob_offset(x, y, gby as int, wig as int) < mip0_bytes(hb, gby, wig),
{
    let g = gby as int;
    let w = wig as int;
    let yh = y / 8;
    let a = yh / g;
    let c = yh % g;
    let bb = x / 64;
    let d = (x % 64) / 32;
    let e = (y % 8) / 2;
    let f = (x % 32) / 16;
    let gg = y % 2;
    let h = x % 16;
    let off = gob_offset(x, y, g, w);
    lemma_fundamental_div_mod(yh, g);
    let q = d * 16 + e * 4 + f * 2 + gg;
    assert(0 <= q < 32);
    let rest = a * g * w + bb * g + c;
    assert(off == rest * 512 + q * 16 + h) by (nonlinear_arith)
        requires
            off == a * (512 * g * w) + bb * (512 * g) + c * 512 + d * 256 + e * 64 + f * 32
                + gg * 16 + h,
            rest == a * g * w + bb * g + c,
            q == d * 16 + e * 4 + f * 2 + gg,
    ;
    assert(0 <= a);
    assert(0 <= rest < (a + 1) * g * w) by (nonlinear_arith)
        requires
            rest == a * g * w + bb * g + c,
            0 <= a,
            0 <= bb < w,
            0 <= c < g,
            0 < g,
    ;
    assert(0 <= off < (a + 1) * g * w * 512) by (nonlinear_arith)
        requires
            off == rest * 512 + q * 16 + h,
            0 <= rest < (a + 1) * g * w,
            0 <= q < 32,
            0 <= h < 16,
    ;
    let dd = 8 * g;
    lemma_div_denominator(y, 8, g);
    assert(a == y / dd);
    lemma_div_is_ordered(y, hb - 1, dd);
    lemma_fundamental_div_mod(hb, dd);
    lemma_fundamental_div_mod(hb - 1, dd);
    let groups = ceil_div(hb, g * 8);
    assert(a + 1 <= groups) by {
        if hb % dd == 0 {
            assert(hb - 1 == (hb / dd - 1) * dd + (dd - 1)) by (nonlinear_arith)
                requires
                    hb == dd * (hb / dd) + hb % dd,
                    hb % dd == 0,
            ;
            lemma_fundamental_div_mod_converse(hb - 1, dd, hb / dd - 1, dd - 1);
        } else {
            lemma_div_is_ordered(hb - 1, hb, dd);
        }
    }
    assert((a + 1) * g * w * 512 <= groups * g * w * 512) by (nonlinear_arith)
        requires
            a + 1 <= groups,
            0 < g,
            0 < w,
    ;
}

/// Whether `b` bytes per block tile a 16-byte GOB row exactly.
pub open spec fn divides_gob_row(b: int) -> bool {
    b == 1 || b == 2 || b == 4 || b == 8 || b == 16
}

/// A block of `b` bytes that tiles the GOB row never straddles two
/// 16-byte rows.
pub proof fn lemma_block_within_row(bx: int, b: int)
    requires
        divides_gob_row(b),
        0 <= bx,
    ensures
        bx * b >= 0,
        (bx * b) % 16 + b <= 16,
{
    let m: int = if b == 1 {
        16
    } else if b == 2 {
        8
    } else if b == 4 {
        4
    } else if b == 8 {
        2
    } else {
        1
    };
    assert(b * m == 16 && m > 0);
    lemma_fundamental_div_mod(bx, m);
    assert(bx * b == 16 * (bx / m) + b * (bx % m)) by (nonlinear_arith)
        requires
            bx == m * (bx / m) + bx % m,
            b * m == 16,
    ;
    assert(0 <= b * (bx % m) <= 16 - b) by (nonlinear_arith)
        requires
            0 <= bx % m < m,
            b * m == 16,
            b > 0,
    ;
    assert(bx * b >= 0) by (nonlinear_arith)
        requires
            bx >= 0,
            b > 0,
    ;
    lemma_fundamental_div_mod_converse(bx * b, 16, bx / m, b * (bx % m));
}

/// Byte `k` of block (`bx`, `by`) sits at the address of column
/// `bx * b + k`, and the whole block lies inside the first mip level.
pub proof fn lemma_block_bytes(bx: int, by: int, k: int, gby: u32, wig: u32, b: int, wb: int, hb: int)
    requires
        is_power_of_two(gby),
        divides_gob_row(b),
        0 <= bx < wb,
        0 <= by < hb,
        by <= u32::MAX,
        0 <= k < b,
        wb * b <= wig * 64,
    ensures
        block_offset_spec(bx, by, gby, wig as int, b) + k == gob_offset(
            bx * b + k,
            by,
            gby as int,
            wig as int,
        ),
        (bx * b + k) / 64 < wig,
        block_offset_spec(bx, by, gby, wig as int, b) + b <= mip0_bytes(hb, gby, wig),
{
    lemma_block_within_row(bx, b);
    let x = bx * b;
    assert(x + b <= wb * b) by (nonlinear_arith)
        requires
            x == bx * b,
            bx < wb,
            b > 0,
    ;
    assert(wig > 0) by (nonlinear_arith)
        requires
            wb * b <= wig * 64,
            wb > 0,
            b > 0,
    ;
    assert(gby > 0) by {
        let kk = choose|kk: nat| kk < 32 && #[trigger] pow2(kk) == gby;
        vstd::arithmetic::power2::lemma_pow2_pos(kk);
    }
    lemma_block_offset_is_gob_offset(bx, by, gby, wig as int, b);
    lemma_gob_offset_step(x, k, by, gby as int, wig as int);
    lemma_gob_offset_step(x, b - 1, by, gby as int, wig as int);
    lemma_div_is_ordered(x + b - 1, wig * 64 - 1, 64);
    lemma_div_is_ordered(x + k, wig * 64 - 1, 64);
    lemma_gob_offset_bound(x + b - 1, by, gby, wig, hb);
}

/// The layouts in which every block has a place of its own: blocks tile
/// the 16-byte GOB rows, GOB blocks are a power of two high, and the rows
/// of GOBs are wide enough for a row of blocks.
pub open spec fn layout_is_bijective(width: u32, height: u32, bpb: u32, gby: u32, wig: u32) -> bool {
    let b = effective_bpb(bpb);
    &&& layout_ok(width, height, bpb, gby, wig)
    &&& divides_gob_row(b)
    &&& is_power_of_two(gby)
    &&& blocks_for(width) * b <= wig * 64
}

/// In such a layout every block lies inside the first mip level, so that
/// `swizzle_block_linear` accepts any row-major image that holds all blocks.
pub proof fn lemma_blocks_inside_mip0(width: u32, height: u32, bpb: u32, gby: u32, wig: u32, len: int)
    requires
        layout_is_bijective(width, height, bpb, gby, wig),
        blocks_for(width) * blocks_for(height) * effective_bpb(bpb) <= len,
    ensures
        swizzle_ok(len, width, height, bpb, gby, wig),
{
    let b = effective_bpb(bpb);
    let wb = blocks_for(width);
    let hb = blocks_for(height);
    assert forall|bx: int, by: int| 0 <= bx < wb && 0 <= by < hb implies #[trigger] block_offset_spec(
        bx,
        by,
        gby,
        wig as int,
        b,
    ) + b <= mip0_bytes(hb, gby, wig) by {
        lemma_block_bytes(bx, by, 0, gby, wig, b, wb, hb);
    }
}

/// Two different blocks never share a byte.
pub proof fn lemma_blocks_disjoint(
    n: int,
    m: int,
    k: int,
    width: u32,
    height: u32,
    bpb: u32,
    gby: u32,
    wig: u32,
)
    requires
        layout_is_bijective(width, height, bpb, gby, wig),
        0 <= n < blocks_for(width) * blocks_for(height),
        0 <= m < blocks_for(width) * blocks_for(height),
        n != m,
        0 <= k < effective_bpb(bpb),
    ensures
        ({
            let b = effective_bpb(bpb);
            let wb = blocks_for(width);
            let on = block_offset_spec(n % wb, n / wb, gby, wig as int, b);
            let om = block_offset_spec(m % wb, m / wb, gby, wig as int, b);
            !(om <= on + k < om + b)
        }),
{
    let b = effective_bpb(bpb);
    let wb = blocks_for(width);
    let hb = blocks_for(height);
    let on = block_offset_spec(n % wb, n / wb, gby, wig as int, b);
    let om = block_offset_spec(m % wb, m / wb, gby, wig as int, b);
    assert(wb > 0) by (nonlinear_arith)
        requires
            0 <= n < wb * hb,
            hb >= 0,
    ;
    lemma_fundamental_div_mod(n, wb);
    lemma_fundamental_div_mod(m, wb);
    assert(n / wb < hb) by (nonlinear_arith)
        requires
            n == wb * (n / wb) + n % wb,
            0 <= n % wb,
            n < wb * hb,
            wb > 0,
    ;
    assert(m / wb < hb) by (nonlinear_arith)
        requires
            m == wb * (m / wb) + m % wb,
            0 <= m % wb,
            m < wb * hb,
            wb > 0,
    ;
    assert(0 <= n / wb && 0 <= m / wb);
    if om <= on + k < om + b {
        let t = on + k - om;
        lemma_block_bytes(n % wb, n / wb, k, gby, wig, b, wb, hb);
        lemma_block_bytes(m % wb, m / wb, t, gby, wig, b, wb, hb);
        lemma_block_within_row(n % wb, b);
        lemma_block_within_row(m % wb, b);
        let g = gby as int;
        let w = wig as int;
        assert(g > 0);
        assert(w > 0);
        lemma_gob_offset_decode((n % wb) * b + k, n / wb, g, w);
        lemma_gob_offset_decode((m % wb) * b + t, m / wb, g, w);
        assert((n % wb) * b + k == (m % wb) * b + t);
        assert(n / wb == m / wb);
        lemma_fundamental_div_mod_converse((n % wb) * b + k, b, n % wb, k);
        lemma_fundamental_div_mod_converse((m % wb) * b + t, b, m % wb, t);
        assert(n % wb == m % wb);
        assert(false);
    }
}

/// Once block `n` has been written, no later block of a bijective layout
/// writes over its bytes.
pub proof fn lemma_prefix_keeps_block(
    data: Seq<u8>,
    width: u32,
    height: u32,
    bpb: u32,
    gby: u32,
    wig: u32,
    big_n: int,
    n: int,
    k: int,
)
    requires
        layout_is_bijective(width, height, bpb, gby, wig),
        0 <= n < big_n <= blocks_for(width) * blocks_for(height),
        0 <= k < effective_bpb(bpb),
    ensures
        ({
            let b = effective_bpb(bpb);
            let wb = blocks_for(width);
            let hb = blocks_for(height);
            let on = block_offset_spec(n % wb, n / wb, gby, wig as int, b);
            swizzle_prefix(data, wb, b, gby, wig, mip0_bytes(hb, gby, wig), big_n)[on + k] == data[n * b + k]
        }),
    decreases big_n,
{
    let b = effective_bpb(bpb);
    let wb = blocks_for(width);
    let hb = blocks_for(height);
    let size = mip0_bytes(hb, gby, wig);
    let on = block_offset_spec(n % wb, n / wb, gby, wig as int, b);
    assert(wb > 0) by (nonlinear_arith)
        requires
            0 <= n < wb * hb,
            hb >= 0,
    ;
    lemma_fundamental_div_mod(n, wb);
    assert(n / wb < hb) by (nonlinear_arith)
        requires
            n == wb * (n / wb) + n % wb,
            0 <= n % wb,
            n < wb * hb,
            wb > 0,
    ;
    lemma_block_bytes(n % wb, n / wb, k, gby, wig, b, wb, hb);
    lemma_block_bytes(n % wb, n / wb, 0, gby, wig, b, wb, hb);
    assert(0 <= on);
    assert(size >= 0);
    lemma_swizzle_prefix_len(data, wb, b, gby, wig, size, big_n - 1);
    if big_n - 1 > n {
        lemma_prefix_keeps_block(data, width, height, bpb, gby, wig, big_n - 1, n, k);
        lemma_blocks_disjoint(n, big_n - 1, k, width, height, bpb, gby, wig);
    }
}

/// Reading a swizzled surface back out gives the row-major image that was
/// written: `deswizzle_block_linear` undoes `swizzle_block_linear` for every
/// layout in which blocks do not share bytes.
pub proof fn lemma_deswizzle_undoes_swizzle(
    data: Seq<u8>,
    width: u32,
    height: u32,
    bpb: u32,
    gby: u32,
    wig: u32,
)
    requires
        layout_is_bijective(width, height, bpb, gby, wig),
        data.len() == blocks_for(width) * blocks_for(height) * effective_bpb(bpb),
    ensures
        swizzle_ok(data.len() as int, width, height, bpb, gby, wig),
        deswizzled(swizzled(data, width, height, bpb, gby, wig), width, height, bpb, gby, wig) == data,
{
    let b = effective_bpb(bpb);
    let wb = blocks_for(width);
    let hb = blocks_for(height);
    let size = mip0_bytes(hb, gby, wig);
    lemma_blocks_inside_mip0(width, height, bpb, gby, wig, data.len() as int);
    let sw = swizzled(data, width, height, bpb, gby, wig);
    assert(size >= 0) by (nonlinear_arith)
        requires
            size == crate::bytes::ceil_div(hb, gby * 8) * gby * wig * 512,
            crate::bytes::ceil_div(hb, gby * 8) >= 0,
    ;
    lemma_swizzle_prefix_len(data, wb, b, gby, wig, size, wb * hb);
    let out = deswizzled(sw, width, height, bpb, gby, wig);
    assert forall|i: int| 0 <= i < data.len() implies out[i] == data[i] by {
        let blk = i / b;
        lemma_fundamental_div_mod(i, b);
        assert(0 <= blk < wb * hb) by (nonlinear_arith)
            requires
                i == b * blk + i % b,
                0 <= i % b < b,
                0 <= i < wb * hb * b,
                b > 0,
        ;
        lemma_fundamental_div_mod(blk, wb);
        assert(blk / wb < hb) by (nonlinear_arith)
            requires
                blk == wb * (blk / wb) + blk % wb,
                0 <= blk % wb,
                blk < wb * hb,
                wb > 0,
        ;
        lemma_block_bytes(blk % wb, blk / wb, 0, gby, wig, b, wb, hb);
        lemma_prefix_keeps_block(data, width, height, bpb, gby, wig, wb * hb, blk, i % b);
        assert(blk * b + i % b == i);
        assert(out[i] == deswizzle_byte(sw, size, wb, b, gby, wig, i));
    }
    assert(out =~= data);
}

/// No block lies before the start of the surface.
pub proof fn lemma_block_offset_nonneg(bx: int, by: int, gby: u32, wig: int, b: int)
    requires
        0 <= bx,
        0 <= by,
        0 <= wig,
        0 <= b,
    ensures
        block_offset_spec(bx, by, gby, wig, b) >= 0,
{
    let xb = bx * b;
    assert(xb >= 0) by (nonlinear_arith)
        requires
            xb == bx * b,
            bx >= 0,
            b >= 0,
    ;
    let yh = by / 8;
    let s = u32_trailing_zeros(gby);
    vstd::arithmetic::power2::lemma_pow2_pos(s as nat);
    vstd::arithmetic::power2::lemma_pow2_pos((9 + s) as nat);
    let p = pow2(s as nat) as int;
    let q = yh / p;
    assert(q >= 0) by {
        vstd::arithmetic::div_mod::lemma_div_pos_is_pos(yh, p);
    }
    assert(q * (512 * gby * wig) >= 0) by (nonlinear_arith)
        requires
            q >= 0,
            gby >= 0,
            wig >= 0,
    ;
    assert((xb / 64) * pow2((9 + s) as nat) as int >= 0) by (nonlinear_arith)
        requires
            xb >= 0,
            pow2((9 + s) as nat) > 0,
    ;
}

/// The first byte of a surface is at its start.
pub proof fn lemma_gob_offset_origin(gby: int, wig: int)
    requires
        0 < gby,
    ensures
        gob_offset(0, 0, gby, wig) == 0,
{
    lemma_fundamental_div_mod_converse(0, gby, 0, 0);
    assert(0int / 8 == 0);
    assert((0int / 8) / gby == 0);
    assert((0int / 8) % gby == 0);
    let q = (0int / 8) / gby;
    assert(q * (512 * gby * wig) == 0) by (nonlinear_arith)
        requires
            q == 0,
    ;
    assert((0int / 64) * (512 * gby) == 0) by (nonlinear_arith);
}

/// Moving 16 bytes right from the first half of a 32-byte span is 32
/// bytes on.
pub proof fn lemma_gob_offset_column_16(x: int, y: int, gby: int, wig: int)
    requires
        0 <= x < 0x1_0000_0000_0000,
        x % 32 < 16,
    ensures
        gob_offset(x + 16, y, gby, wig) == gob_offset(x, y, gby, wig) + 32,
{
    let xx = x as u64;
    assert(xx < 0x1_0000_0000_0000 && xx % 32 < 16 ==> (xx + 16) / 64 == xx / 64 && ((xx + 16) % 64)
        / 32 == (xx % 64) / 32 && ((xx + 16) % 32) / 16 == (xx % 32) / 16 + 1 && (xx + 16) % 16 == xx
        % 16) by (bit_vector);
}

/// Moving 32 bytes right from the first half of a 64-byte GOB row is 256
/// bytes on.
pub proof fn lemma_gob_offset_column_32(x: int, y: int, gby: int, wig: int)
    requires
        0 <= x < 0x1_0000_0000_0000,
        x % 64 < 32,
    ensures
        gob_offset(x + 32, y, gby, wig) == gob_offset(x, y, gby, wig) + 256,
{
    let xx = x as u64;
    assert(xx < 0x1_0000_0000_0000 && xx % 64 < 32 ==> (xx + 32) / 64 == xx / 64 && ((xx + 32) % 64)
        / 32 == (xx % 64) / 32 + 1 && ((xx + 32) % 32) / 16 == (xx % 32) / 16 && (xx + 32) % 16 == xx
        % 16) by (bit_vector);
}

/// Moving 64 bytes right is one GOB block, `gby` GOBs, on.
pub proof fn lemma_gob_offset_column_64(x: int, y: int, gby: int, wig: int)
    requires
        0 <= x < 0x1_0000_0000_0000,
    ensures
        gob_offset(x + 64, y, gby, wig) == gob_offset(x, y, gby, wig) + 512 * gby,
{
    let xx = x as u64;
    assert(xx < 0x1_0000_0000_0000 ==> (xx + 64) / 64 == xx / 64 + 1 && (xx + 64) % 64 == xx % 64)
        by (bit_vector);
    let q = x / 64;
    assert((q + 1) * (512 * gby) == q * (512 * gby) + 512 * gby) by (nonlinear_arith);
}

/// Moving down inside a GOB: one block row from an even row is 16 bytes
/// on, two block rows are 64 bytes on.
pub proof fn lemma_gob_offset_row_moves(x: int, y: int, gby: int, wig: int)
    requires
        0 <= y < 0x1_0000_0000_0000,
    ensures
        y % 2 == 0 ==> gob_offset(x, y + 1, gby, wig) == gob_offset(x, y, gby, wig) + 16,
        y % 8 < 6 ==> gob_offset(x, y + 2, gby, wig) == gob_offset(x, y, gby, wig) + 64,
{
    let yy = y as u64;
    assert(yy < 0x1_0000_0000_0000 ==> {
        &&& (yy % 2 == 0 ==> (yy + 1) / 8 == yy / 8 && ((yy + 1) % 8) / 2 == (yy % 8) / 2 && (yy
            + 1) % 2 == 1)
        &&& (yy % 8 < 6 ==> (yy + 2) / 8 == yy / 8 && ((yy + 2) % 8) / 2 == (yy % 8) / 2 + 1 && (
        yy + 2) % 2 == yy % 2)
    }) by (bit_vector);
}

/// Moving down a whole GOB (8 block rows) inside a GOB block is 512 bytes
/// on; moving down a whole GOB block (`8 * gby` rows) is a band of
/// `gby * wig` GOBs on.
pub proof fn lemma_gob_offset_gob_moves(x: int, y: int, gby: int, wig: int)
    requires
        0 <= y,
        0 < gby,
    ensures
        (y / 8) % gby < gby - 1 ==> gob_offset(x, y + 8, gby, wig) == gob_offset(x, y, gby, wig)
            + 512,
        gob_offset(x, y + 8 * gby, gby, wig) == gob_offset(x, y, gby, wig) + 512 * gby * wig,
{
    let yh = y / 8;
    lemma_fundamental_div_mod(y, 8);
    lemma_fundamental_div_mod_converse(y + 8, 8, yh + 1, y % 8);
    lemma_fundamental_div_mod(yh, gby);
    assert(yh == (yh / gby) * gby + yh % gby) by (nonlinear_arith)
        requires
            yh == gby * (yh / gby) + yh % gby,
    ;
    if yh % gby < gby - 1 {
        lemma_fundamental_div_mod_converse(yh + 1, gby, yh / gby, yh % gby + 1);
    }
    assert(y + 8 * gby == (yh + gby) * 8 + y % 8);
    lemma_fundamental_div_mod_converse(y + 8 * gby, 8, yh + gby, y % 8);
    assert(yh + gby == (yh / gby + 1) * gby + yh % gby) by (nonlinear_arith)
        requires
            yh == (yh / gby) * gby + yh % gby,
    ;
    lemma_fundamental_div_mod_converse(yh + gby, gby, yh / gby + 1, yh % gby);
    assert((yh / gby + 1) * (512 * gby * wig) == (yh / gby) * (512 * gby * wig) + 512 * gby * wig)
        by (nonlinear_arith);
}

/// For 16-byte blocks and a power-of-two GOB block height, the swizzled
/// offset of block (`bx`, `by`) moves as the hardware layout does: block
/// (0, 0) is at 0; the next block right is 32 bytes on from an even column;
/// two blocks right are 256 bytes on when `bx % 4 < 2`; four blocks right
/// are one GOB block (`512 * gby` bytes) on; the next row down is 16 bytes
/// on from an even row; two rows down are 64 bytes on when `by % 8 < 6`;
/// eight rows down are one GOB (512 bytes) on inside a GOB block; and
/// `8 * gby` rows down are a band of `gby * wig` GOBs on.
#[verifier::spinoff_prover]
pub proof fn lemma_block_offset_moves(bx: int, by: int, gby: u32, wig: int)
    requires
        is_power_of_two(gby),
        0 < wig,
        0 <= bx < 0x1_0000_0000,
        0 <= by,
        by + 8 * gby <= u32::MAX,
    ensures
        block_offset_spec(0, 0, gby, wig, 16) == 0,
        bx % 2 == 0 ==> block_offset_spec(bx + 1, by, gby, wig, 16) == block_offset_spec(
            bx,
            by,
            gby,
            wig,
            16,
        ) + 32,
        bx % 4 < 2 ==> block_offset_spec(bx + 2, by, gby, wig, 16) == block_offset_spec(
            bx,
            by,
            gby,
            wig,
            16,
        ) + 256,
        block_offset_spec(bx + 4, by, gby, wig, 16) == block_offset_spec(bx, by, gby, wig, 16) + 512
            * gby,
        by % 2 == 0 ==> block_offset_spec(bx, by + 1, gby, wig, 16) == block_offset_spec(
            bx,
            by,
            gby,
            wig,
            16,
        ) + 16,
        by % 8 < 6 ==> block_offset_spec(bx, by + 2, gby, wig, 16) == block_offset_spec(
            bx,
            by,
            gby,
            wig,
            16,
        ) + 64,
        (by / 8) % (gby as int) < gby - 1 ==> block_offset_spec(bx, by + 8, gby, wig, 16)
            == block_offset_spec(bx, by, gby, wig, 16) + 512,
        block_offset_spec(bx, by + 8 * gby, gby, wig, 16) == block_offset_spec(bx, by, gby, wig, 16)
            + 512 * gby * wig,
{
    let g = gby as int;
    assert(g > 0) by {
        let k = choose|k: nat| k < 32 && #[trigger] pow2(k) == gby;
        vstd::arithmetic::power2::lemma_pow2_pos(k);
    }
    let x = bx * 16;
    let o = block_offset_spec(bx, by, gby, wig, 16);
    assert(o == gob_offset(x, by, g, wig)) by {
        lemma_block_offset_is_gob_offset(bx, by, gby, wig, 16);
    }
    assert(block_offset_spec(0, 0, gby, wig, 16) == 0) by {
        lemma_block_offset_is_gob_offset(0, 0, gby, wig, 16);
        lemma_gob_offset_origin(g, wig);
    }
    assert(bx % 2 == 0 ==> block_offset_spec(bx + 1, by, gby, wig, 16) == o + 32) by {
        if bx % 2 == 0 {
            lemma_block_offset_is_gob_offset(bx + 1, by, gby, wig, 16);
            lemma_gob_offset_column_16(x, by, g, wig);
        }
    }
    assert(bx % 4 < 2 ==> block_offset_spec(bx + 2, by, gby, wig, 16) == o + 256) by {
        if bx % 4 < 2 {
            lemma_block_offset_is_gob_offset(bx + 2, by, gby, wig, 16);
            lemma_gob_offset_column_32(x, by, g, wig);
        }
    }
    assert(block_offset_spec(bx + 4, by, gby, wig, 16) == o + 512 * gby) by {
        lemma_block_offset_is_gob_offset(bx + 4, by, gby, wig, 16);
        lemma_gob_offset_column_64(x, by, g, wig);
    }
    assert(by % 2 == 0 ==> block_offset_spec(bx, by + 1, gby, wig, 16) == o + 16) by {
        if by % 2 == 0 {
            lemma_block_offset_is_gob_offset(bx, by + 1, gby, wig, 16);
            lemma_gob_offset_row_moves(x, by, g, wig);
        }
    }
    assert(by % 8 < 6 ==> block_offset_spec(bx, by + 2, gby, wig, 16) == o + 64) by {
        if by % 8 < 6 {
            lemma_block_offset_is_gob_offset(bx, by + 2, gby, wig, 16);
            lemma_gob_offset_row_moves(x, by, g, wig);
        }
    }
    assert((by / 8) % g < g - 1 ==> block_offset_spec(bx, by + 8, gby, wig, 16) == o + 512) by {
        if (by / 8) % g < g - 1 {
            lemma_block_offset_is_gob_offset(bx, by + 8, gby, wig, 16);
            lemma_gob_offset_gob_moves(x, by, g, wig);
        }
    }
    assert(block_offset_spec(bx, by + 8 * gby, gby, wig, 16) == o + 512 * gby * wig) by {
        lemma_block_offset_is_gob_offset(bx, by + 8 * gby, gby, wig, 16);
        lemma_gob_offset_gob_moves(x, by, g, wig);
    }
}

/// With BC7 blocks the row-major image is exactly as long as the block
/// data that the DDS header announces, and the swizzled surface is exactly
/// the first mip level.
pub proof fn lemma_surface_sizes(data: Seq<u8>, width: u32, height: u32, bpb: u32, gby: u32, wig: u32)
    requires
        effective_bpb(bpb) == 16,
        gby > 0,
    ensures
        deswizzled(data, width, height, bpb, gby, wig).len() == block_data_len(width, height),
        swizzled(data, width, height, bpb, gby, wig).len() == mip0_bytes(
            blocks_for(height),
            gby,
            wig,
        ),
{
    let wb = blocks_for(width);
    let hb = blocks_for(height);
    assert(wb >= 0 && hb >= 0);
    assert(wb * hb * 16 >= 0) by (nonlinear_arith)
        requires
            wb >= 0,
            hb >= 0,
    ;
    let size = mip0_bytes(hb, gby, wig);
    let groups = ceil_div(hb, gby * 8);
    assert(groups >= 0);
    assert(size >= 0) by (nonlinear_arith)
        requires
            size == groups * gby * wig * 512,
            groups >= 0,
    ;
    lemma_swizzle_prefix_len(data, wb, 16, gby, wig, size, wb * hb);
}

/// Bytes past the first mip level never reach the image: reading out a
/// surface gives the same blocks as reading out its first mip level alone.
pub proof fn lemma_deswizzle_reads_only_mip0(
    data: Seq<u8>,
    width: u32,
    height: u32,
    bpb: u32,
    gby: u32,
    wig: u32,
)
    requires
        data.len() >= mip0_bytes(blocks_for(height), gby, wig) >= 0,
    ensures
        deswizzled(data, width, height, bpb, gby, wig) == deswizzled(
            data.subrange(0, mip0_bytes(blocks_for(height), gby, wig)),
            width,
            height,
            bpb,
            gby,
            wig,
        ),
{
    let mip0 = mip0_bytes(blocks_for(height), gby, wig);
    let a = deswizzled(data, width, height, bpb, gby, wig);
    let sub = data.subrange(0, mip0);
    let b = deswizzled(sub, width, height, bpb, gby, wig);
    let bb = effective_bpb(bpb);
    let wb = blocks_for(width);
    assert(a.len() == b.len());
    assert forall|i: int| 0 <= i < a.len() implies a[i] == b[i] by {
        lemma_fundamental_div_mod(i, bb);
        vstd::arithmetic::div_mod::lemma_mod_bound(i, bb);
        let off = block_offset_spec((i / bb) % wb, (i / bb) / wb, gby, wig as int, bb);
        assert(wb > 0) by (nonlinear_arith)
            requires
                0 <= i < wb * blocks_for(height) * bb,
                blocks_for(height) >= 0,
                bb > 0,
        ;
        lemma_fundamental_div_mod(i / bb, wb);
        vstd::arithmetic::div_mod::lemma_mod_bound(i / bb, wb);
        vstd::arithmetic::div_mod::lemma_div_pos_is_pos(i, bb);
        vstd::arithmetic::div_mod::lemma_div_pos_is_pos(i / bb, wb);
        lemma_block_offset_nonneg((i / bb) % wb, (i / bb) / wb, gby, wig as int, bb);
        if off + bb <= mip0 {
            assert(sub[off + i % bb] == data[off + i % bb]);
        }
        assert(a[i] == deswizzle_byte(data, mip0, wb, bb, gby, wig, i));
        assert(b[i] == deswizzle_byte(sub, mip0, wb, bb, gby, wig, i));
    }
    assert(a =~= b);
}

} // verus!
