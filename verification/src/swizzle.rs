//! Tegra block-linear layout: the address of each 4x4 pixel block inside a
//! swizzled surface, and conversion between that layout and plain row-major
//! block order.
use vstd::prelude::*;
use vstd::arithmetic::power2::{pow2, lemma_pow2_pos};
use vstd::arithmetic::div_mod::lemma_fundamental_div_mod_converse;
use vstd::bits::{lemma_u32_shr_is_div, lemma_u64_shl_is_mul, lemma_u64_pow2_no_overflow};
use vstd::std_specs::bits::{u32_trailing_zeros, axiom_u32_trailing_zeros};
use crate::bytes::{ceil_div, div_ceil_u32};
use crate::error::PitaError;

verus! {

/// Bytes per block when none is given: one BC7 block.
pub const BPB_DEFAULT: u32 = 16;

/// Width and height in pixels of a compressed block.
pub const BLK_PX: u32 = 4;

/// Height of a GOB in block rows.
pub const GOB_HEIGHT: u32 = 8;

/// Height of a block of GOBs, in GOBs, for a surface `hb` blocks high.
pub open spec fn gob_blocks_for_height(hb: int) -> u32 {
    let h = hb + hb / 2;
    if h >= 128 {
        16
    } else if h >= 64 {
        8
    } else if h >= 32 {
        4
    } else if h >= 16 {
        2
    } else {
        1
    }
}

/// The GOB block height grows with the surface: one and a half times the
/// height in blocks below 16 gives 1, below 32 gives 2, below 64 gives 4,
/// below 128 gives 8, and from 128 on gives 16.
pub proof fn lemma_gob_blocks_for_height_bands(hb: int)
    requires
        0 <= hb,
    ensures
        hb + hb / 2 >= 128 ==> gob_blocks_for_height(hb) == 16,
        64 <= hb + hb / 2 < 128 ==> gob_blocks_for_height(hb) == 8,
        32 <= hb + hb / 2 < 64 ==> gob_blocks_for_height(hb) == 4,
        16 <= hb + hb / 2 < 32 ==> gob_blocks_for_height(hb) == 2,
        hb + hb / 2 < 16 ==> gob_blocks_for_height(hb) == 1,
{
}

/// Picks the GOB block height from the surface height in blocks.
pub fn detect_gob_blocks_y(_wb: u32, hb: u32) -> (r: u32)
    requires
        hb + hb / 2 <= u32::MAX,
    ensures
        r == gob_blocks_for_height(hb as int),
        hb + hb / 2 >= 128 ==> r == 16,
        64 <= hb + hb / 2 < 128 ==> r == 8,
        32 <= hb + hb / 2 < 64 ==> r == 4,
        16 <= hb + hb / 2 < 32 ==> r == 2,
        hb + hb / 2 < 16 ==> r == 1,
{
    let h = hb + (hb / 2);
    if h >= 128 {
        16
    } else if h >= 64 {
        8
    } else if h >= 32 {
        4
    } else if h >= 16 {
        2
    } else {
        1
    }
}

/// Width of a surface row in GOBs (64 bytes each), rounded up.
pub fn compute_width_in_gobs(wb: u32, bpb: u32) -> (r: u32)
    requires
        wb * bpb <= u32::MAX,
    ensures
        r == ceil_div(wb * bpb, 64),
        wb * bpb <= r * 64 < wb * bpb + 64,
{
    div_ceil_u32(wb * bpb, 64)
}

/// Byte offset, inside a swizzled surface, of block (`bx`, `by`).
///
/// A GOB is 64 bytes wide and 8 block rows high (512 bytes); GOBs are
/// stacked `gby` high into GOB blocks, which are laid out left to right,
/// then in bands of `gby * 8` block rows. Inside a GOB the bytes are
/// interleaved as the hardware addresses them.
pub open spec fn block_offset_spec(bx: int, by: int, gby: u32, wig: int, bpb: int) -> int {
    let xb = bx * bpb;
    let yh = by / 8;
    let s = u32_trailing_zeros(gby);
    (yh / pow2(s as nat) as int) * (512 * gby * wig) + (xb / 64) * pow2((9 + s) as nat) as int + (((
    yh as u32) & ((gby - 1) as u32)) as int) * 512 + ((xb % 64) / 32) * 256 + ((by % 8) / 2) * 64 + ((
    xb % 32) / 16) * 32 + (by % 2) * 16 + xb % 16
}

/// Computes the swizzled offset of block (`bx`, `by`) with the shifts and
/// masks the hardware uses.
fn block_offset(bx: u32, by: u32, _wb: u32, gob_blocks_y: u32, width_in_gobs: u32, bpb: u32) -> (off:
    u64)
    requires
        gob_blocks_y > 0,
        bx * bpb <= u32::MAX,
        512 * gob_blocks_y <= u32::MAX,
        512 * gob_blocks_y * width_in_gobs <= u32::MAX,
        block_offset_spec(bx as int, by as int, gob_blocks_y, width_in_gobs as int, bpb as int)
            <= u64::MAX,
    ensures
        off == block_offset_spec(bx as int, by as int, gob_blocks_y, width_in_gobs as int, bpb as int),
{
    let xb = bx * bpb;
    let yh = by / GOB_HEIGHT;
    let bh_shift = gob_blocks_y.trailing_zeros();
    let bh_mask = gob_blocks_y - 1;
    let x_shift = 9 + bh_shift;
    let rob_size = 512 * gob_blocks_y * width_in_gobs;
    proof {
        axiom_u32_trailing_zeros(gob_blocks_y);
        lemma_u32_shr_is_div(yh, bh_shift);
        lemma_u64_pow2_no_overflow(x_shift as nat);
        lemma_u64_shl_is_mul(1u64, x_shift as u64);
        assert((xb & 0x3f) >> 5 == (xb % 64) / 32) by (bit_vector);
        assert((by & 7) >> 1 == (by % 8) / 2) by (bit_vector);
        assert((xb & 0x1f) >> 4 == (xb % 32) / 16) by (bit_vector);
        assert(by & 1 == by % 2) by (bit_vector);
        assert(xb & 0x0f == xb % 16) by (bit_vector);
        lemma_pow2_pos(bh_shift as nat);
    }
    let t1 = (yh >> bh_shift) as u64 * rob_size as u64;
    let t2 = (xb / 64) as u64 * (1u64 << x_shift);
    let t3 = (yh & bh_mask) as u64 * 512;
    let t4 = ((xb & 0x3f) >> 5) as u64 * 256;
    let t5 = ((by & 7) >> 1) as u64 * 64;
    let t6 = ((xb & 0x1f) >> 4) as u64 * 32;
    let t7 = (by & 1) as u64 * 16;
    let t8 = (xb & 0x0f) as u64;
    t1 + t2 + t3 + t4 + t5 + t6 + t7 + t8
}

/// Bytes per block actually used: a zero request stands for the BC7 default.
pub open spec fn effective_bpb(bpb: u32) -> int {
    if bpb == 0 {
        BPB_DEFAULT as int
    } else {
        bpb as int
    }
}

/// Number of 4-pixel blocks that cover `pixels` pixels.
pub open spec fn blocks_for(pixels: u32) -> int {
    ceil_div(pixels as int, BLK_PX as int)
}

/// Size in bytes of the first mip level of a swizzled surface `hb` blocks high.
pub open spec fn mip0_bytes(hb: int, gby: u32, wig: u32) -> int {
    ceil_div(hb, gby * 8) * gby * wig * 512
}

/// The arguments for which the (de)swizzling arithmetic stays in range: the
/// GOB block height is non-zero, and every product that the conversion
/// forms, every block offset among them, fits the machine type that holds it.
pub open spec fn layout_ok(width: u32, height: u32, bpb: u32, gby: u32, wig: u32) -> bool {
    let b = effective_bpb(bpb);
    let wb = blocks_for(width);
    let hb = blocks_for(height);
    &&& gby > 0
    &&& gby * 8 <= u32::MAX
    &&& mip0_bytes(hb, gby, wig) <= usize::MAX
    &&& wb * hb * b <= usize::MAX
    &&& (wb > 0 && hb > 0) ==> {
        &&& (wb - 1) * b <= u32::MAX
        &&& 512 * gby <= u32::MAX
        &&& 512 * gby * wig <= u32::MAX
        &&& forall|bx: int, by: int|
            0 <= bx < wb && 0 <= by < hb ==> #[trigger] block_offset_spec(bx, by, gby, wig as int, b)
                + b <= usize::MAX
    }
}

/// Byte `i` of the row-major image read out of a swizzled surface: block
/// `i / b` (row-major over `wb` blocks per row) is copied from its swizzled
/// offset when it lies wholly below `limit`, and is zero otherwise.
pub open spec fn deswizzle_byte(
    data: Seq<u8>,
    limit: int,
    wb: int,
    b: int,
    gby: u32,
    wig: u32,
    i: int,
) -> u8 {
    let blk = i / b;
    let off = block_offset_spec(blk % wb, blk / wb, gby, wig as int, b);
    if off + b <= limit {
        data[off + i % b]
    } else {
        0
    }
}

/// The row-major block image that `deswizzle_block_linear` produces.
pub open spec fn deswizzled(
    data: Seq<u8>,
    width: u32,
    height: u32,
    bpb: u32,
    gby: u32,
    wig: u32,
) -> Seq<u8> {
    let b = effective_bpb(bpb);
    let wb = blocks_for(width);
    let hb = blocks_for(height);
    let mip0 = mip0_bytes(hb, gby, wig);
    let limit = if data.len() < mip0 {
        data.len() as int
    } else {
        mip0
    };
    Seq::new((wb * hb * b) as nat, |i: int| deswizzle_byte(data, limit, wb, b, gby, wig, i))
}

/// Byte `k` of block (`bx`, `by`) sits at `(by * wb + bx) * b + k` in
/// row-major order, and is found there again by division.
pub proof fn lemma_block_index(wb: int, b: int, bx: int, by: int, k: int)
    requires
        0 <= bx < wb,
        0 <= by,
        0 <= k < b,
    ensures
        ((by * wb + bx) * b + k) / b == by * wb + bx,
        ((by * wb + bx) * b + k) % b == k,
        (by * wb + bx) % wb == bx,
        (by * wb + bx) / wb == by,
{
    lemma_fundamental_div_mod_converse((by * wb + bx) * b + k, b, by * wb + bx, k);
    lemma_fundamental_div_mod_converse(by * wb + bx, wb, by, bx);
}

/// Rewrites a surface from block-linear layout into row-major block order.
///
/// Each block whose swizzled bytes lie wholly inside the data (and inside
/// the first mip level) is copied; blocks beyond that are left zero.
pub fn deswizzle_block_linear(
    data: &[u8],
    width: u32,
    height: u32,
    bpb: u32,
    gob_blocks_y: u32,
    width_in_gobs: u32,
) -> (r: Result<Vec<u8>, PitaError>)
    requires
        layout_ok(width, height, bpb, gob_blocks_y, width_in_gobs),
    ensures
        r matches Ok(out) && out@ == deswizzled(
            data@,
            width,
            height,
            bpb,
            gob_blocks_y,
            width_in_gobs,
        ),
{
    let ghost b0 = bpb;
    let bpb = if bpb == 0 {
        BPB_DEFAULT
    } else {
        bpb
    };
    let wb = div_ceil_u32(width, BLK_PX);
    let hb = div_ceil_u32(height, BLK_PX);
    let groups = div_ceil_u32(hb, gob_blocks_y * GOB_HEIGHT);
    proof {
        assert(groups * gob_blocks_y * width_in_gobs * 512 == mip0_bytes(hb as int, gob_blocks_y, width_in_gobs));
        assert(groups * gob_blocks_y <= u64::MAX) by (nonlinear_arith)
            requires
                groups <= u32::MAX,
                gob_blocks_y * 8 <= u32::MAX,
        ;
        assert(groups * gob_blocks_y * width_in_gobs <= u64::MAX) by (nonlinear_arith)
            requires
                groups <= u32::MAX,
                gob_blocks_y * 8 <= u32::MAX,
                width_in_gobs <= u32::MAX,
                groups * gob_blocks_y * width_in_gobs * 512 <= u64::MAX,
        ;
    }
    let mip0_gobs = groups as u64 * gob_blocks_y as u64 * width_in_gobs as u64;
    let mip0_sz = (mip0_gobs * 512) as usize;
    let limit = if data.len() < mip0_sz {
        data.len()
    } else {
        mip0_sz
    };
    proof {
        assert(wb * hb <= u64::MAX) by (nonlinear_arith)
            requires
                wb <= u32::MAX,
                hb <= u32::MAX,
        ;
        assert(wb * hb * bpb <= usize::MAX);
    }
    let out_size = (wb as u64 * hb as u64 * bpb as u64) as usize;
    let mut out = vec![0u8; out_size];
    let ghost spec_data = data@;
    assert(b0 == 0 ==> bpb == 16);
    assert(effective_bpb(b0) == bpb);
    assert(0 * wb * bpb == 0) by (nonlinear_arith);
    assert forall|i: int| 0 <= i < out_size implies out@[i] == 0 by {
        assert(cloned(0u8, out@[i]));
    }
    let mut by: u32 = 0;
    while by < hb
        invariant
            0 <= by <= hb,
            bpb > 0,
            wb == blocks_for(width),
            hb == blocks_for(height),
            bpb == effective_bpb(b0),
            layout_ok(width, height, b0, gob_blocks_y, width_in_gobs),
            spec_data == data@,
            limit <= data@.len(),
            out_size == wb * hb * bpb,
            out@.len() == out_size,
            forall|i: int| 0 <= i < by * wb * bpb ==> out@[i] == deswizzle_byte(spec_data, limit as int, wb as int, bpb as int, gob_blocks_y, width_in_gobs, i),
            forall|i: int| by * wb * bpb <= i < out_size ==> out@[i] == 0,
        decreases hb - by,
    {
        let mut bx: u32 = 0;
        while bx < wb
            invariant
                0 <= by < hb,
                0 <= bx <= wb,
                bpb > 0,
                wb == blocks_for(width),
                hb == blocks_for(height),
                bpb == effective_bpb(b0),
                layout_ok(width, height, b0, gob_blocks_y, width_in_gobs),
                spec_data == data@,
                limit <= data@.len(),
                out_size == wb * hb * bpb,
                out@.len() == out_size,
                forall|i: int| 0 <= i < (by * wb + bx) * bpb ==> out@[i] == deswizzle_byte(spec_data, limit as int, wb as int, bpb as int, gob_blocks_y, width_in_gobs, i),
                forall|i: int| (by * wb + bx) * bpb <= i < out_size ==> out@[i] == 0,
            decreases wb - bx,
        {
            proof {
                assert(bx * bpb <= (wb - 1) * bpb) by (nonlinear_arith)
                    requires
                        bx < wb,
                        bpb > 0,
                ;
                assert(block_offset_spec(bx as int, by as int, gob_blocks_y, width_in_gobs as int, bpb as int)
                    + bpb <= usize::MAX);
                assert((by * wb + bx + 1) * bpb <= out_size) by (nonlinear_arith)
                    requires
                        by < hb,
                        bx < wb,
                        bpb > 0,
                        out_size == wb * hb * bpb,
                ;
                assert((by * wb + bx + 1) * bpb == (by * wb + bx) * bpb + bpb) by (nonlinear_arith);
                assert(by * wb <= u64::MAX) by (nonlinear_arith)
                    requires
                        by < hb,
                        wb <= u32::MAX,
                        hb <= u32::MAX,
                ;
                assert(by * wb + bx <= (by * wb + bx) * bpb) by (nonlinear_arith)
                    requires
                        bpb > 0,
                        by * wb + bx >= 0,
                ;
            }
            let off = block_offset(bx, by, wb, gob_blocks_y, width_in_gobs, bpb);
            let didx = (by as u64 * wb as u64 + bx as u64) * bpb as u64;
            let ghost blk = by * wb + bx;
            if off as usize + bpb as usize <= limit {
                let mut k: usize = 0;
                while k < bpb as usize
                    invariant
                        0 <= k <= bpb,
                        bpb > 0,
                        0 <= bx < wb,
                        0 <= by < hb,
                        blk == by * wb + bx,
                        didx == blk * bpb,
                        (blk + 1) * bpb <= out_size,
                        (blk + 1) * bpb == blk * bpb + bpb,
                        out_size <= usize::MAX,
                        off + bpb <= limit,
                        limit <= data@.len(),
                        spec_data == data@,
                        off == block_offset_spec(bx as int, by as int, gob_blocks_y, width_in_gobs as int, bpb as int),
                        out@.len() == out_size,
                        forall|i: int| 0 <= i < didx + k ==> out@[i] == deswizzle_byte(spec_data, limit as int, wb as int, bpb as int, gob_blocks_y, width_in_gobs, i),
                        forall|i: int| didx + k <= i < out_size ==> out@[i] == 0,
                    decreases bpb - k,
                {
                    proof {
                        lemma_block_index(wb as int, bpb as int, bx as int, by as int, k as int);
                        let j = didx + k;
                        assert(j / (bpb as int) == blk);
                        assert(j % (bpb as int) == k);
                        assert(blk % (wb as int) == bx);
                        assert(blk / (wb as int) == by);
                        assert(block_offset_spec(blk % (wb as int), blk / (wb as int), gob_blocks_y, width_in_gobs as int, bpb as int) == off);
                        assert(deswizzle_byte(spec_data, limit as int, wb as int, bpb as int, gob_blocks_y, width_in_gobs, j) == data@[off + k]);
                        assert(deswizzle_byte(spec_data, limit as int, wb as int, bpb as int, gob_blocks_y, width_in_gobs, j) == data@[off + k]);
                    }
                    out.set(didx as usize + k, data[off as usize + k]);
                    k = k + 1;
                }
            } else {
                proof {
                    assert forall|i: int| didx <= i < didx + bpb implies out@[i] == deswizzle_byte(spec_data, limit as int, wb as int, bpb as int, gob_blocks_y, width_in_gobs, i) by {
                        lemma_block_index(wb as int, bpb as int, bx as int, by as int, i - didx);
                        assert(i / (bpb as int) == blk);
                        assert(blk % (wb as int) == bx);
                        assert(blk / (wb as int) == by);
                        assert(deswizzle_byte(spec_data, limit as int, wb as int, bpb as int, gob_blocks_y, width_in_gobs, i) == 0);
                    }
                }
            }
            bx = bx + 1;
        }
        proof {
            assert((by * wb + wb) * bpb == (by + 1) * wb * bpb) by (nonlinear_arith);
        }
        by = by + 1;
    }
    proof {
        assert(hb * wb * bpb == wb * hb * bpb) by (nonlinear_arith);
        let mip0 = mip0_bytes(blocks_for(height), gob_blocks_y, width_in_gobs);
        assert(mip0_sz == mip0);
        assert(limit == if data@.len() < mip0 { data@.len() as int } else { mip0 });
        assert(out@ =~= deswizzled(data@, width, height, b0, gob_blocks_y, width_in_gobs));
    }
    Ok(out)
}

/// The surface after the first `n` blocks (in row-major order) have been
/// written into a zeroed buffer of `size` bytes at their swizzled offsets;
/// a later block overwrites what an earlier one left where they meet.
pub open spec fn swizzle_prefix(
    data: Seq<u8>,
    wb: int,
    b: int,
    gby: u32,
    wig: u32,
    size: int,
    n: int,
) -> Seq<u8>
    decreases n,
{
    if n <= 0 {
        Seq::new(size as nat, |j: int| 0u8)
    } else {
        let prev = swizzle_prefix(data, wb, b, gby, wig, size, n - 1);
        let blk = n - 1;
        let off = block_offset_spec(blk % wb, blk / wb, gby, wig as int, b);
        Seq::new(
            prev.len(),
            |j: int|
                if off <= j < off + b {
                    data[blk * b + (j - off)]
                } else {
                    prev[j]
                },
        )
    }
}

/// Writing blocks never changes the size of the surface.
pub proof fn lemma_swizzle_prefix_len(
    data: Seq<u8>,
    wb: int,
    b: int,
    gby: u32,
    wig: u32,
    size: int,
    n: int,
)
    requires
        size >= 0,
    ensures
        swizzle_prefix(data, wb, b, gby, wig, size, n).len() == size,
    decreases n,
{
    if n > 0 {
        lemma_swizzle_prefix_len(data, wb, b, gby, wig, size, n - 1);
    }
}

/// The block-linear surface that `swizzle_block_linear` produces: every
/// block of the row-major input written at its swizzled offset into a zeroed
/// first mip level.
pub open spec fn swizzled(
    data: Seq<u8>,
    width: u32,
    height: u32,
    bpb: u32,
    gby: u32,
    wig: u32,
) -> Seq<u8> {
    let b = effective_bpb(bpb);
    let wb = blocks_for(width);
    let hb = blocks_for(height);
    swizzle_prefix(data, wb, b, gby, wig, mip0_bytes(hb, gby, wig), wb * hb)
}

/// The inputs `swizzle_block_linear` accepts: the layout arithmetic fits,
/// the row-major data holds every block, and every block's swizzled bytes
/// fall inside the first mip level.
pub open spec fn swizzle_ok(
    len: int,
    width: u32,
    height: u32,
    bpb: u32,
    gby: u32,
    wig: u32,
) -> bool {
    let b = effective_bpb(bpb);
    let wb = blocks_for(width);
    let hb = blocks_for(height);
    &&& layout_ok(width, height, bpb, gby, wig)
    &&& wb * hb * b <= len
    &&& forall|bx: int, by: int|
        0 <= bx < wb && 0 <= by < hb ==> #[trigger] block_offset_spec(bx, by, gby, wig as int, b) + b
            <= mip0_bytes(hb, gby, wig)
}

/// Rewrites a row-major block image into block-linear layout, into a zeroed
/// buffer the size of the first mip level.
pub fn swizzle_block_linear(
    data: &[u8],
    width: u32,
    height: u32,
    bpb: u32,
    gob_blocks_y: u32,
    width_in_gobs: u32,
) -> (r: Result<Vec<u8>, PitaError>)
    requires
        swizzle_ok(data@.len() as int, width, height, bpb, gob_blocks_y, width_in_gobs),
    ensures
        r matches Ok(out) && out@ == swizzled(data@, width, height, bpb, gob_blocks_y, width_in_gobs),
{
    let ghost b0 = bpb;
    let bpb = if bpb == 0 {
        BPB_DEFAULT
    } else {
        bpb
    };
    let wb = div_ceil_u32(width, BLK_PX);
    let hb = div_ceil_u32(height, BLK_PX);
    let groups = div_ceil_u32(hb, gob_blocks_y * GOB_HEIGHT);
    proof {
        assert(groups * gob_blocks_y * width_in_gobs * 512 == mip0_bytes(hb as int, gob_blocks_y, width_in_gobs));
        assert(groups * gob_blocks_y <= u64::MAX) by (nonlinear_arith)
            requires
                groups <= u32::MAX,
                gob_blocks_y * 8 <= u32::MAX,
        ;
        assert(groups * gob_blocks_y * width_in_gobs <= u64::MAX) by (nonlinear_arith)
            requires
                groups <= u32::MAX,
                gob_blocks_y * 8 <= u32::MAX,
                width_in_gobs <= u32::MAX,
                groups * gob_blocks_y * width_in_gobs * 512 <= u64::MAX,
        ;
        assert(wb * hb <= u64::MAX) by (nonlinear_arith)
            requires
                wb <= u32::MAX,
                hb <= u32::MAX,
        ;
    }
    let mip0_gobs = groups as u64 * gob_blocks_y as u64 * width_in_gobs as u64;
    let out_size = (mip0_gobs * 512) as usize;
    let mut out = vec![0u8; out_size];
    let ghost spec_data = data@;
    assert(effective_bpb(b0) == bpb);
    assert(0 * wb == 0) by (nonlinear_arith);
    assert(out@ =~= swizzle_prefix(spec_data, wb as int, bpb as int, gob_blocks_y, width_in_gobs, out_size as int, 0)) by {
        assert forall|i: int| 0 <= i < out_size implies out@[i] == 0 by {
            assert(cloned(0u8, out@[i]));
        }
    }
    let mut by: u32 = 0;
    while by < hb
        invariant
            0 <= by <= hb,
            bpb > 0,
            wb == blocks_for(width),
            hb == blocks_for(height),
            bpb == effective_bpb(b0),
            swizzle_ok(data@.len() as int, width, height, b0, gob_blocks_y, width_in_gobs),
            spec_data == data@,
            out_size == mip0_bytes(hb as int, gob_blocks_y, width_in_gobs),
            out@ == swizzle_prefix(spec_data, wb as int, bpb as int, gob_blocks_y, width_in_gobs, out_size as int, by * wb),
        decreases hb - by,
    {
        let mut bx: u32 = 0;
        assert(by * wb + 0 == by * wb);
        while bx < wb
            invariant
                0 <= by < hb,
                0 <= bx <= wb,
                bpb > 0,
                wb == blocks_for(width),
                hb == blocks_for(height),
                bpb == effective_bpb(b0),
                swizzle_ok(data@.len() as int, width, height, b0, gob_blocks_y, width_in_gobs),
                spec_data == data@,
                out_size == mip0_bytes(hb as int, gob_blocks_y, width_in_gobs),
                out@ == swizzle_prefix(spec_data, wb as int, bpb as int, gob_blocks_y, width_in_gobs, out_size as int, by * wb + bx),
            decreases wb - bx,
        {
            proof {
                assert(bx * bpb <= (wb - 1) * bpb) by (nonlinear_arith)
                    requires
                        bx < wb,
                        bpb > 0,
                ;
                assert(block_offset_spec(bx as int, by as int, gob_blocks_y, width_in_gobs as int, bpb as int)
                    + bpb <= usize::MAX);
                assert(block_offset_spec(bx as int, by as int, gob_blocks_y, width_in_gobs as int, bpb as int)
                    + bpb <= out_size);
                assert((by * wb + bx + 1) * bpb <= wb * hb * bpb) by (nonlinear_arith)
                    requires
                        by < hb,
                        bx < wb,
                        bpb > 0,
                ;
                assert((by * wb + bx + 1) * bpb == (by * wb + bx) * bpb + bpb) by (nonlinear_arith);
                assert(by * wb <= u64::MAX) by (nonlinear_arith)
                    requires
                        by < hb,
                        wb <= u32::MAX,
                        hb <= u32::MAX,
                ;
                assert(by * wb + bx <= (by * wb + bx) * bpb) by (nonlinear_arith)
                    requires
                        bpb > 0,
                        by * wb + bx >= 0,
                ;
            }
            let off = block_offset(bx, by, wb, gob_blocks_y, width_in_gobs, bpb);
            let didx = (by as u64 * wb as u64 + bx as u64) * bpb as u64;
            let ghost blk = by * wb + bx;
            let ghost prev = out@;
            proof {
                lemma_swizzle_prefix_len(spec_data, wb as int, bpb as int, gob_blocks_y, width_in_gobs, out_size as int, blk);
            }
            let dlen = data.len();
            let mut k: usize = 0;
            while k < bpb as usize
                invariant
                    0 <= k <= bpb,
                    bpb > 0,
                    blk == by * wb + bx,
                    didx == blk * bpb,
                    didx + bpb <= data@.len(),
                    dlen == data@.len(),
                    off + bpb <= out_size,
                    out_size <= usize::MAX,
                    spec_data == data@,
                    prev.len() == out_size,
                    out@.len() == out_size,
                    forall|j: int| 0 <= j < out_size ==> out@[j] == (if off <= j < off + k {
                        spec_data[didx + (j - off)]
                    } else {
                        prev[j]
                    }),
                decreases bpb - k,
            {
                out.set(off as usize + k, data[didx as usize + k]);
                k = k + 1;
            }
            proof {
                lemma_block_index(wb as int, bpb as int, bx as int, by as int, 0);
                assert(blk % (wb as int) == bx);
                assert(blk / (wb as int) == by);
                let next = swizzle_prefix(spec_data, wb as int, bpb as int, gob_blocks_y, width_in_gobs, out_size as int, blk + 1);
                assert(out@ =~= next);
            }
            bx = bx + 1;
        }
        proof {
            assert(by * wb + wb == (by + 1) * wb) by (nonlinear_arith);
        }
        by = by + 1;
    }
    proof {
        assert(hb * wb == wb * hb) by (nonlinear_arith);
    }
    Ok(out)
}

} // verus!
