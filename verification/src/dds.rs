//! The DDS container written around decoded BC7 block data.
use vstd::prelude::*;
use crate::bytes::{ceil_div, div_ceil_u32, le_u32, lemma_u32_le_roundtrip, push_u32_le, u32_le_bytes};

verus! {

/// Format code of BC7 textures in the texture footer.
pub const FMT_BC7: u16 = 1;

/// Format code of large BC7 textures in the texture footer.
pub const FMT_BC7_LARGE: u16 = 4;

/// `DXGI_FORMAT_BC7_UNORM`.
pub const DXGI_BC7_UNORM: u32 = 98;

/// Size in bytes of the DDS header with its DX10 extension.
pub const DDS_HEADER_LEN: usize = 148;

/// Bytes per 4x4 block: every format the footer names is stored as BC7.
pub fn bytes_per_block(format: u16) -> (r: u32)
    ensures
        r == 16,
{
    if format == FMT_BC7 || format == FMT_BC7_LARGE {
        16
    } else {
        16
    }
}

/// The DXGI format written into the DX10 header: always BC7.
pub fn dxgi_format(_format: u16) -> (r: u32)
    ensures
        r == DXGI_BC7_UNORM,
{
    DXGI_BC7_UNORM
}

/// `n` zero bytes.
pub open spec fn zeros(n: nat) -> Seq<u8> {
    Seq::new(n, |i: int| 0u8)
}

/// The 148-byte DDS header (with DX10 extension) that describes a BC7
/// surface of `width` x `height` pixels holding `data_size` bytes.
pub open spec fn dds_header(width: u32, height: u32, data_size: u32) -> Seq<u8> {
    seq![0x44u8, 0x44u8, 0x53u8, 0x20u8] + u32_le_bytes(124) + u32_le_bytes(0x00081007)
        + u32_le_bytes(height) + u32_le_bytes(width) + u32_le_bytes(data_size) + u32_le_bytes(0)
        + u32_le_bytes(0) + zeros(44) + u32_le_bytes(32) + u32_le_bytes(4) + seq![
        0x44u8,
        0x58u8,
        0x31u8,
        0x30u8,
    ] + zeros(20) + u32_le_bytes(0x1000) + zeros(16) + u32_le_bytes(DXGI_BC7_UNORM) + u32_le_bytes(3)
        + u32_le_bytes(0) + u32_le_bytes(1) + u32_le_bytes(0)
}

fn push_zeros(v: &mut Vec<u8>, n: usize)
    ensures
        final(v)@ == old(v)@ + zeros(n as nat),
{
    let mut i: usize = 0;
    while i < n
        invariant
            0 <= i <= n,
            v@ == old(v)@ + zeros(i as nat),
        decreases n - i,
    {
        v.push(0u8);
        i = i + 1;
        assert(v@ =~= old(v)@ + zeros(i as nat));
    }
}

/// Builds the DDS header for a BC7 surface.
pub fn build_dds_header(width: u32, height: u32, data_size: u32, format: u16) -> (hdr: Vec<u8>)
    ensures
        hdr@ == dds_header(width, height, data_size),
{
    let mut hdr: Vec<u8> = Vec::with_capacity(DDS_HEADER_LEN);
    hdr.push(0x44u8);
    hdr.push(0x44u8);
    hdr.push(0x53u8);
    hdr.push(0x20u8);
    assert(hdr@ =~= seq![0x44u8, 0x44u8, 0x53u8, 0x20u8]);
    push_u32_le(&mut hdr, 124);
    push_u32_le(&mut hdr, 0x00081007);
    push_u32_le(&mut hdr, height);
    push_u32_le(&mut hdr, width);
    push_u32_le(&mut hdr, data_size);
    push_u32_le(&mut hdr, 0);
    push_u32_le(&mut hdr, 0);
    push_zeros(&mut hdr, 44);
    push_u32_le(&mut hdr, 32);
    push_u32_le(&mut hdr, 4);
    let ghost before_tag = hdr@;
    hdr.push(0x44u8);
    hdr.push(0x58u8);
    hdr.push(0x31u8);
    hdr.push(0x30u8);
    assert(hdr@ =~= before_tag + seq![0x44u8, 0x58u8, 0x31u8, 0x30u8]);
    push_zeros(&mut hdr, 20);
    push_u32_le(&mut hdr, 0x1000);
    push_zeros(&mut hdr, 16);
    push_u32_le(&mut hdr, dxgi_format(format));
    push_u32_le(&mut hdr, 3);
    push_u32_le(&mut hdr, 0);
    push_u32_le(&mut hdr, 1);
    push_u32_le(&mut hdr, 0);
    hdr
}

/// Size in bytes of the BC7 data of a `width` x `height` surface.
pub open spec fn block_data_len(width: u32, height: u32) -> int {
    ceil_div(width as int, 4) * ceil_div(height as int, 4) * 16
}

/// Size in bytes of the block data of a `width` x `height` surface.
pub fn block_data_size(width: u32, height: u32, format: u16) -> (r: u32)
    requires
        block_data_len(width, height) <= u32::MAX,
    ensures
        r == block_data_len(width, height),
{
    let wb = div_ceil_u32(width, 4);
    let hb = div_ceil_u32(height, 4);
    assert(wb * hb <= wb * hb * 16) by (nonlinear_arith)
        requires
            wb >= 0,
            hb >= 0,
    ;
    wb * hb * bytes_per_block(format)
}

/// The header is 148 bytes long, opens with the `DDS ` magic, announces
/// the DX10 extension, and its height, width, data size and DXGI format
/// fields read back as the values it was built from.
pub proof fn lemma_dds_header_fields(width: u32, height: u32, data_size: u32)
    ensures
        dds_header(width, height, data_size).len() == DDS_HEADER_LEN,
        dds_header(width, height, data_size).subrange(0, 4) == seq![0x44u8, 0x44u8, 0x53u8, 0x20u8],
        dds_header(width, height, data_size).subrange(84, 88) == seq![0x44u8, 0x58u8, 0x31u8, 0x30u8],
        le_u32(dds_header(width, height, data_size), 4) == 124,
        le_u32(dds_header(width, height, data_size), 12) == height,
        le_u32(dds_header(width, height, data_size), 16) == width,
        le_u32(dds_header(width, height, data_size), 20) == data_size,
        le_u32(dds_header(width, height, data_size), 128) == DXGI_BC7_UNORM,
{
    let h = dds_header(width, height, data_size);
    lemma_u32_le_roundtrip(124);
    lemma_u32_le_roundtrip(height);
    lemma_u32_le_roundtrip(width);
    lemma_u32_le_roundtrip(data_size);
    lemma_u32_le_roundtrip(DXGI_BC7_UNORM);
    assert(h.len() == 148);
    assert(h.subrange(0, 4) =~= seq![0x44u8, 0x44u8, 0x53u8, 0x20u8]);
    assert(h.subrange(84, 88) =~= seq![0x44u8, 0x58u8, 0x31u8, 0x30u8]);
    assert(h.subrange(4, 8) =~= u32_le_bytes(124));
    assert(h.subrange(12, 16) =~= u32_le_bytes(height));
    assert(h.subrange(16, 20) =~= u32_le_bytes(width));
    assert(h.subrange(20, 24) =~= u32_le_bytes(data_size));
    assert(h.subrange(128, 132) =~= u32_le_bytes(DXGI_BC7_UNORM));
}

} // verus!
