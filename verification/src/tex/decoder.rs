use vstd::prelude::*;
use vstd::arithmetic::power2::{pow2, lemma2_to64};
use crate::bytes::{ceil_div, div_ceil_u32, lemma_ceil_div_bounds};
use crate::bytes::le_u32;
use crate::dds::{
    block_data_len, block_data_size, build_dds_header, bytes_per_block, dds_header, lemma_dds_header_fields, zeros,
};
use crate::error::PitaError;
use crate::swizzle::{block_offset_spec, blocks_for, deswizzle_block_linear, deswizzled, layout_ok, mip0_bytes};
use crate::swizzle_laws::{divides_gob_row, is_power_of_two, lemma_block_bytes};
use crate::tex::footer::{footer_of, lemma_footer_bounds, read_footer, TexFooter};
use crate::tex::gby::{is_gob_height, lemma_resolved_gob_height, opt_bytes, resolve_gby, resolved_gob_height};
use crate::PitaResult;

verus! {

/// `std::io::Error`, the error type of `zstd::decode_all`.
#[verifier::external_type_specification]
#[verifier::external_body]
pub struct ExIoError(std::io::Error);

/// What `zstd::decode_all` makes of a byte string: the concatenated
/// content of the zstd frames it holds, or `None` when it is not a valid
/// zstd stream.
pub uninterp spec fn zstd_decoded(data: Seq<u8>) -> Option<Seq<u8>>;

/// Decompresses a zstd stream with `zstd::decode_all`. The contract claims
/// only that the outcome is a function of the input bytes: the call fails
/// exactly when `zstd_decoded` gives `None`, and otherwise returns what it
/// gives.
#[verifier::external_body]
fn zstd_decode_all(data: &[u8]) -> (r: Result<Vec<u8>, std::io::Error>)
    ensures
        match r {
            Ok(v) => zstd_decoded(data@) == Some(v@),
            Err(_) => zstd_decoded(data@) is None,
        },
{
    zstd::decode_all(data)
}

/// A texture decoded to a DDS file.
#[derive(Debug)]
pub struct TexDecodeResult {
    pub dds_data: Vec<u8>,
    pub width: u32,
    pub height: u32,
    pub format: u16,
}

/// The zstd frame magic that every texture file starts with.
pub open spec fn zstd_magic() -> Seq<u8> {
    seq![0x28u8, 0xB5u8, 0x2Fu8, 0xFDu8]
}

/// Width of a row of the surface in GOBs, for BC7 blocks.
pub open spec fn tex_width_in_gobs(width: u32) -> u32 {
    ceil_div(blocks_for(width) * 16, 64) as u32
}

/// The decompressed surface padded with zeros, or cut, to `size` bytes,
/// as `decode_to_dds` does when the payload (its length taken modulo 2^32)
/// is shorter than the first mip level.
pub open spec fn padded_surface(d: Seq<u8>, size: int) -> Seq<u8> {
    if ((d.len() as u32) as int) < size {
        if d.len() <= size {
            d + zeros((size - d.len()) as nat)
        } else {
            d.subrange(0, size)
        }
    } else {
        d
    }
}

/// The DDS file made from a decompressed texture whose footer is `f`.
pub open spec fn dds_of(d: Seq<u8>, f: TexFooter, spr: Option<Seq<u8>>) -> Seq<u8> {
    let w = f.width as u32;
    let h = f.height as u32;
    let hb = blocks_for(h);
    let gby = resolved_gob_height(hb, spr);
    let wig = tex_width_in_gobs(w);
    let padded = padded_surface(d, mip0_bytes(hb, gby, wig));
    dds_header(w, h, block_data_len(w, h) as u32) + deswizzled(padded, w, h, 16, gby, wig)
}

/// What decoding a decompressed texture `d` gives: the footer's error, or
/// the DDS file with the texture's width, height and format code.
pub open spec fn tex_decoding(d: Seq<u8>, spr: Option<Seq<u8>>) -> Result<
    (Seq<u8>, u32, u32, u16),
    PitaError,
> {
    match footer_of(d) {
        Err(e) => Err(e),
        Ok(f) => Ok((dds_of(d, f, spr), f.width as u32, f.height as u32, f.format)),
    }
}

/// Whether `r` is the outcome that `expected` describes.
pub open spec fn outcome_matches(
    r: PitaResult<TexDecodeResult>,
    expected: Result<(Seq<u8>, u32, u32, u16), PitaError>,
) -> bool {
    match expected {
        Ok((dds, w, h, f)) => r matches Ok(res) && res.dds_data@ == dds && res.width == w && res.height
            == h && res.format == f,
        Err(e) => r == Err::<TexDecodeResult, PitaError>(e),
    }
}

/// Every GOB block height of the format is a power of two.
proof fn lemma_gob_height_is_power_of_two(gby: u32)
    requires
        is_gob_height(gby as int),
    ensures
        is_power_of_two(gby),
{
    lemma2_to64();
    if gby == 1 {
        assert(pow2(0) == 1);
    } else if gby == 2 {
        assert(pow2(1) == 2);
    } else if gby == 4 {
        assert(pow2(2) == 4);
    } else if gby == 8 {
        assert(pow2(3) == 8);
    } else {
        assert(pow2(4) == 16);
    }
}

/// Pads the decompressed surface with zeros, or cuts it, to `size` bytes
/// when its length (modulo 2^32) falls short of `size`.
fn pad_surface(decompressed: Vec<u8>, size: u32) -> (padded: Vec<u8>)
    ensures
        padded@ == padded_surface(decompressed@, size as int),
{
    let ghost d = decompressed@;
    if (decompressed.len() as u32) < size {
        let mut padded: Vec<u8> = Vec::with_capacity(size as usize);
        let keep = if decompressed.len() < size as usize {
            decompressed.len()
        } else {
            size as usize
        };
        let mut i: usize = 0;
        while i < keep
            invariant
                0 <= i <= keep,
                keep <= decompressed@.len(),
                d == decompressed@,
                padded@ == d.subrange(0, i as int),
            decreases keep - i,
        {
            padded.push(decompressed[i]);
            i = i + 1;
            assert(padded@ =~= d.subrange(0, i as int));
        }
        while padded.len() < size as usize
            invariant
                keep <= padded@.len(),
                padded@.len() <= size,
                keep == (if d.len() < size { d.len() as int } else { size as int }),
                padded@.subrange(0, keep as int) == d.subrange(0, keep as int),
                forall|j: int| keep <= j < padded@.len() ==> padded@[j] == 0,
            decreases size - padded@.len(),
        {
            padded.push(0u8);
            assert(padded@.subrange(0, keep as int) =~= d.subrange(0, keep as int));
        }
        proof {
            assert forall|j: int| 0 <= j < keep implies padded@[j] == d[j] by {
                assert(padded@.subrange(0, keep as int)[j] == d.subrange(0, keep as int)[j]);
            }
            if d.len() <= size {
                assert(padded@ =~= d + zeros((size - d.len()) as nat));
            } else {
                assert(padded@ =~= d.subrange(0, size as int));
            }
        }
        padded
    } else {
        decompressed
    }
}

/// The surfaces a texture footer can describe, with any GOB block height
/// of the format, fit the arithmetic of `deswizzle_block_linear`.
proof fn lemma_tex_layout_ok(w: u32, h: u32, gby: u32)
    requires
        4 <= w <= 8192,
        4 <= h <= 8192,
        is_gob_height(gby as int),
    ensures
        layout_ok(w, h, 16, gby, tex_width_in_gobs(w)),
        ceil_div(blocks_for(h), gby * 8) <= 256,
        ceil_div(blocks_for(h), gby * 8) * gby <= 256 * 16,
        ceil_div(blocks_for(h), gby * 8) * gby * tex_width_in_gobs(w) <= 256 * 16 * 512,
        mip0_bytes(blocks_for(h), gby, tex_width_in_gobs(w)) <= 256 * 16 * 512 * 512,
        blocks_for(w) * blocks_for(h) * 16 <= 2048 * 2048 * 16,
{
    let wb = blocks_for(w);
    let hb = blocks_for(h);
    let wig = tex_width_in_gobs(w);
    assert(wb <= 2048 && hb <= 2048 && wb >= 1 && hb >= 1);
    assert(wig <= 512);
    lemma_gob_height_is_power_of_two(gby);
    let groups = ceil_div(hb, gby * 8);
    assert(groups <= 256) by (nonlinear_arith)
        requires
            groups == ceil_div(hb, gby * 8),
            hb <= 2048,
            gby >= 1,
    ;
    assert(groups >= 0);
    assert(groups * gby <= 256 * 16) by (nonlinear_arith)
        requires
            0 <= groups <= 256,
            1 <= gby <= 16,
    ;
    assert(groups * gby * wig <= 256 * 16 * 512) by (nonlinear_arith)
        requires
            0 <= groups * gby <= 256 * 16,
            0 <= wig <= 512,
    ;
    assert(mip0_bytes(hb, gby, wig) <= 256 * 16 * 512 * 512);
    assert(gby > 0);
    assert(gby * 8 <= u32::MAX);
    assert((wb - 1) * 16 <= u32::MAX);
    assert(512 * gby <= u32::MAX);
    assert(divides_gob_row(16));
    assert(wb * 16 <= wig * 64);
    assert forall|bx: int, by: int|
        0 <= bx < wb && 0 <= by < hb implies #[trigger] block_offset_spec(bx, by, gby, wig as int, 16)
        + 16 <= usize::MAX by {
        lemma_block_bytes(bx, by, 0, gby, wig, 16, wb, hb);
    }
    assert(wb * hb * 16 <= 2048 * 2048 * 16) by (nonlinear_arith)
        requires
            0 <= wb <= 2048,
            0 <= hb <= 2048,
    ;
    assert(512 * gby * wig <= 512 * 16 * 512) by (nonlinear_arith)
        requires
            gby <= 16,
            wig <= 512,
    ;
}

/// Converts a decompressed texture (the surface followed by its footer) to
/// a DDS file: reads the footer, picks the GOB block height, pads the
/// surface to the first mip level and reads the blocks out of it.
pub fn decode_decompressed(decompressed: Vec<u8>, companion_spr: Option<&[u8]>) -> (r: PitaResult<
    TexDecodeResult,
>)
    ensures
        outcome_matches(r, tex_decoding(decompressed@, opt_bytes(companion_spr))),
{
    let footer = read_footer(decompressed.as_slice())?;
    let fmt = footer.format;
    let bpb = bytes_per_block(fmt);
    let w = footer.width as u32;
    let h = footer.height as u32;
    let wb = div_ceil_u32(w, 4);
    let hb = div_ceil_u32(h, 4);
    let gby = resolve_gby(wb, hb, companion_spr);
    proof {
        lemma_resolved_gob_height(hb as int, opt_bytes(companion_spr));
        lemma_tex_layout_ok(w, h, gby);
    }
    let wig = div_ceil_u32(wb * bpb, 64);
    let gob_height = 8u32;
    let groups = div_ceil_u32(hb, gby * gob_height);
    let mip0_gobs = groups * gby * wig;
    let mip0_sz = mip0_gobs * 512;
    let padded = pad_surface(decompressed, mip0_sz);
    let pixels = deswizzle_block_linear(padded.as_slice(), w, h, bpb, gby, wig)?;
    let data_size = block_data_size(w, h, fmt);
    let header = build_dds_header(w, h, data_size, fmt);
    let mut dds_data: Vec<u8> = Vec::with_capacity(header.len() + pixels.len());
    dds_data.extend_from_slice(header.as_slice());
    dds_data.extend_from_slice(pixels.as_slice());
    assert(dds_data@ =~= header@ + pixels@);
    Ok(TexDecodeResult { dds_data, width: w, height: h, format: fmt })
}

/// A texture `w` pixels wide is `ceil(w / 4)` blocks wide, and its rows
/// of GOBs are just wide enough for a row of 16-byte blocks: the least
/// number of 64-byte GOBs that holds `16 * blocks` bytes.
pub proof fn lemma_tex_width_in_gobs(w: u32)
    requires
        w <= 8192,
    ensures
        w <= 4 * blocks_for(w) < w + 4,
        16 * blocks_for(w) <= 64 * tex_width_in_gobs(w) < 16 * blocks_for(w) + 64,
{
    lemma_ceil_div_bounds(w as int, 4);
    lemma_ceil_div_bounds(blocks_for(w) * 16, 64);
}

/// The pixels of a decoded texture are its padded surface read out with
/// rows of GOBs exactly as wide as a row of blocks needs, whatever way that
/// width is written down.
pub proof fn lemma_decoded_pixels(d: Seq<u8>, spr: Option<Seq<u8>>, wig: u32)
    requires
        tex_decoding(d, spr) is Ok,
        ({
            let w = tex_decoding(d, spr)->Ok_0.1;
            16 * blocks_for(w) <= 64 * wig < 16 * blocks_for(w) + 64
        }),
    ensures
        ({
            let (dds, w, h, f) = tex_decoding(d, spr)->Ok_0;
            let hb = blocks_for(h);
            let gby = resolved_gob_height(hb, spr);
            dds.subrange(148, dds.len() as int) == deswizzled(
                padded_surface(d, mip0_bytes(hb, gby, wig)),
                w,
                h,
                16,
                gby,
                wig,
            )
        }),
{
    lemma_footer_bounds(d);
    let f = footer_of(d)->Ok_0;
    let w = f.width as u32;
    let h = f.height as u32;
    lemma_tex_width_in_gobs(w);
    assert(wig == tex_width_in_gobs(w));
    let size = block_data_len(w, h);
    lemma_dds_header_fields(w, h, size as u32);
    let dds = tex_decoding(d, spr)->Ok_0.0;
    assert(dds.subrange(148, dds.len() as int) =~= deswizzled(
        padded_surface(d, mip0_bytes(blocks_for(h), resolved_gob_height(blocks_for(h), spr), wig)),
        w,
        h,
        16,
        resolved_gob_height(blocks_for(h), spr),
        wig,
    ));
}

/// Every DDS file a texture decodes to is a 148-byte header followed by
/// the BC7 blocks of the surface: it is longer than 148 bytes, starts with
/// `DDS `, describes a surface at least 4 pixels on each side, and its
/// header's width, height and data-size fields match the result and the
/// payload that follows.
pub proof fn lemma_decoded_dds_shape(d: Seq<u8>, spr: Option<Seq<u8>>)
    requires
        tex_decoding(d, spr) is Ok,
    ensures
        ({
            let (dds, w, h, f) = tex_decoding(d, spr)->Ok_0;
            &&& dds.len() == 148 + block_data_len(w, h)
            &&& dds.len() > 148
            &&& dds.subrange(0, 4) == seq![0x44u8, 0x44u8, 0x53u8, 0x20u8]
            &&& 4 <= w <= 8192
            &&& 4 <= h <= 8192
            &&& le_u32(dds, 12) == h
            &&& le_u32(dds, 16) == w
            &&& le_u32(dds, 20) == dds.len() - 148
        }),
{
    lemma_footer_bounds(d);
    let f = footer_of(d)->Ok_0;
    let w = f.width as u32;
    let h = f.height as u32;
    let hb = blocks_for(h);
    let gby = resolved_gob_height(hb, spr);
    lemma_resolved_gob_height(hb, spr);
    lemma_tex_layout_ok(w, h, gby);
    let size = block_data_len(w, h);
    assert(size == blocks_for(w) * blocks_for(h) * 16);
    assert(size >= 16) by (nonlinear_arith)
        requires
            size == blocks_for(w) * blocks_for(h) * 16,
            blocks_for(w) >= 1,
            blocks_for(h) >= 1,
    ;
    lemma_dds_header_fields(w, h, size as u32);
    let hdr = dds_header(w, h, size as u32);
    let dds = tex_decoding(d, spr)->Ok_0.0;
    assert(dds.subrange(0, 4) =~= hdr.subrange(0, 4));
    assert(dds.subrange(0, 148) =~= hdr);
    assert(dds[12] == hdr[12] && dds[13] == hdr[13] && dds[14] == hdr[14] && dds[15] == hdr[15]);
    assert(dds[16] == hdr[16] && dds[17] == hdr[17] && dds[18] == hdr[18] && dds[19] == hdr[19]);
    assert(dds[20] == hdr[20] && dds[21] == hdr[21] && dds[22] == hdr[22] && dds[23] == hdr[23]);
}

/// Decodes a texture file to a DDS file. Fails with `Truncated` below four
/// bytes, with `BadMagic` when the file does not start with the zstd magic,
/// with `DecompressFailed` when zstd rejects it, and otherwise as
/// `decode_decompressed` does on the decompressed payload.
pub fn decode_to_dds(data: &[u8], companion_spr: Option<&[u8]>) -> (r: PitaResult<TexDecodeResult>)
    ensures
        data@.len() < 4 ==> r == Err::<TexDecodeResult, PitaError>(PitaError::Truncated),
        data@.len() >= 4 && data@.subrange(0, 4) != zstd_magic() ==> r == Err::<
            TexDecodeResult,
            PitaError,
        >(PitaError::BadMagic),
        data@.len() >= 4 && data@.subrange(0, 4) == zstd_magic() ==> match zstd_decoded(data@) {
            None => r == Err::<TexDecodeResult, PitaError>(PitaError::DecompressFailed),
            Some(d) => outcome_matches(r, tex_decoding(d, opt_bytes(companion_spr))),
        },
{
    if data.len() < 4 {
        return Err(PitaError::Truncated);
    }
    if !(data[0] == 0x28 && data[1] == 0xB5 && data[2] == 0x2F && data[3] == 0xFD) {
        proof {
            if data@.subrange(0, 4) == zstd_magic() {
                assert(data@[0] == data@.subrange(0, 4)[0]);
                assert(data@[1] == data@.subrange(0, 4)[1]);
                assert(data@[2] == data@.subrange(0, 4)[2]);
                assert(data@[3] == data@.subrange(0, 4)[3]);
            }
        }
        return Err(PitaError::BadMagic);
    }
    assert(data@.subrange(0, 4) =~= zstd_magic());
    let decompressed = match zstd_decode_all(data) {
        Ok(v) => v,
        Err(_) => return Err(PitaError::DecompressFailed),
    };
    decode_decompressed(decompressed, companion_spr)
}

} // verus!
