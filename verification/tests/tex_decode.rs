use pita::error::PitaError;
use pita::tex::decoder::{decode_decompressed, decode_to_dds};
use pita::tex::footer::{read_footer, TexFooter};
use pita::tex::gby::{get_spr_gby, resolve_gby};

fn pattern(n: usize) -> Vec<u8> {
    (0..n).map(|i| (i % 251) as u8).collect()
}

/// A decompressed texture: `surface` followed by a 4096-byte footer.
fn texture(surface: &[u8], mip: u16, w: u16, h: u16, fmt: u16) -> Vec<u8> {
    let mut d = surface.to_vec();
    let mut footer = vec![0u8; 0x1000];
    footer[0..2].copy_from_slice(&mip.to_le_bytes());
    footer[2..4].copy_from_slice(&0xabcdu16.to_le_bytes());
    footer[4..6].copy_from_slice(&w.to_le_bytes());
    footer[6..8].copy_from_slice(&h.to_le_bytes());
    footer[8..10].copy_from_slice(&fmt.to_le_bytes());
    d.extend_from_slice(&footer);
    d
}

fn compress(d: &[u8]) -> Vec<u8> {
    zstd::encode_all(d, 3).unwrap()
}

fn u32_at(b: &[u8], off: usize) -> u32 {
    u32::from_le_bytes([b[off], b[off + 1], b[off + 2], b[off + 3]])
}

#[test]
fn c_api_tex_decode_invalid() {
    let garbage = b"not a tex file";
    let ret = match decode_to_dds(garbage, None) {
        Ok(_) => 0,
        Err(e) => e.code(),
    };
    assert!(ret < 0, "Expected error code, got {}", ret);
}

#[test]
fn tex_decode_all_no_crash() {
    let surface = pattern(512);
    let data = compress(&texture(&surface, 0, 8, 8, 1));
    let result = decode_to_dds(&data, None).unwrap();
    assert!(result.dds_data.len() > 148);
    assert_eq!(&result.dds_data[0..4], b"DDS ");
    assert!(result.width >= 4);
    assert!(result.height >= 4);
}

#[test]
fn tex_decode_small_texture_exactly() {
    let surface = pattern(512);
    let data = compress(&texture(&surface, 0x63, 8, 8, 4));
    let result = decode_to_dds(&data, None).unwrap();
    assert_eq!(result.width, 8);
    assert_eq!(result.height, 8);
    assert_eq!(result.format, 4);
    let dds = &result.dds_data;
    assert_eq!(dds.len(), 148 + 64);
    assert_eq!(u32_at(dds, 12), 8);
    assert_eq!(u32_at(dds, 16), 8);
    assert_eq!(u32_at(dds, 20), 64);
    assert_eq!(u32_at(dds, 128), 98);
    let px = &dds[148..];
    assert_eq!(&px[0..16], &surface[0..16]);
    assert_eq!(&px[16..32], &surface[32..48]);
    assert_eq!(&px[32..48], &surface[16..32]);
    assert_eq!(&px[48..64], &surface[48..64]);
}

#[test]
fn tex_decode_pads_short_surface() {
    // 256x256 needs a 64 KiB first mip level; only 100 surface bytes exist.
    let surface = pattern(100);
    let d = texture(&surface, 0, 256, 256, 1);
    let result = decode_decompressed(d.clone(), None).unwrap();
    assert_eq!(result.dds_data.len(), 148 + 64 * 64 * 16);
    let px = &result.dds_data[148..];
    // Block (0,0) comes from the first 16 bytes of the surface.
    assert_eq!(&px[0..16], &surface[0..16]);
    // Block (1,0) sits at offset 32, block (0,1) at offset 16.
    assert_eq!(&px[16..32], &surface[32..48]);
    assert_eq!(&px[64 * 16..64 * 16 + 16], &surface[16..32]);
    // Block (63,63) sits at offset 65520, past the data and footer: zero.
    assert!(px[px.len() - 16..].iter().all(|&b| b == 0));
    // Decoding the compressed file gives the same result.
    let via_zstd = decode_to_dds(&compress(&d), None).unwrap();
    assert_eq!(via_zstd.dds_data, result.dds_data);
}

#[test]
fn tex_decode_errors() {
    assert_eq!(decode_to_dds(&[0x28, 0xb5, 0x2f], None).err(), Some(PitaError::Truncated));
    assert_eq!(decode_to_dds(b"not a tex file", None).err(), Some(PitaError::BadMagic));
    assert_eq!(
        decode_to_dds(&[0x28, 0xb5, 0x2f, 0xfd, 1, 2, 3], None).err(),
        Some(PitaError::DecompressFailed)
    );
    let short = compress(&pattern(4095));
    assert_eq!(decode_to_dds(&short, None).err(), Some(PitaError::Truncated));
    let small = compress(&texture(&[], 0, 3, 8, 1));
    assert_eq!(decode_to_dds(&small, None).err(), Some(PitaError::BadFooter));
    let big = compress(&texture(&[], 0, 8, 8193, 1));
    assert_eq!(decode_to_dds(&big, None).err(), Some(PitaError::BadFooter));
    let mip = compress(&texture(&[], 0x66, 8, 8, 1));
    assert_eq!(decode_to_dds(&mip, None).err(), Some(PitaError::BadFooter));
}

#[test]
fn footer_fields_and_mip_count() {
    let d = texture(&pattern(10), 0x65, 640, 360, 1);
    let f: TexFooter = read_footer(&d).unwrap();
    assert_eq!(f.mip_code, 0x65);
    assert_eq!(f.unknown, 0xabcd);
    assert_eq!(f.width, 640);
    assert_eq!(f.height, 360);
    assert_eq!(f.format, 1);
    assert_eq!(f.mip_count(), 4);
    let m = |code: u16| TexFooter { mip_code: code, unknown: 0, width: 4, height: 4, format: 1 }.mip_count();
    assert_eq!(m(0), 1);
    assert_eq!(m(0x63), 2);
    assert_eq!(m(0x64), 3);
    assert_eq!(m(0x99), 1);
    assert_eq!(read_footer(&pattern(4095)).err(), Some(PitaError::Truncated));
}

/// A sprite file whose single entry prescribes GOB block height `v`.
fn sprite_with_height(tbl: u32, v: u32, len: usize) -> Vec<u8> {
    let mut s = vec![0u8; len];
    s[4..8].copy_from_slice(&1u32.to_le_bytes());
    s[0x38..0x3c].copy_from_slice(&tbl.to_le_bytes());
    let at = tbl as usize + 32 + 204;
    s[at..at + 4].copy_from_slice(&v.to_le_bytes());
    s
}

#[test]
fn spr_gob_height_read() {
    assert_eq!(get_spr_gby(&sprite_with_height(0, 4, 240)), Some(4));
    assert_eq!(get_spr_gby(&sprite_with_height(16, 16, 256)), Some(16));
    // Too short for the value.
    assert_eq!(get_spr_gby(&sprite_with_height(0, 4, 240)[..239]), None);
    // Not a height the hardware knows.
    assert_eq!(get_spr_gby(&sprite_with_height(0, 3, 240)), None);
    // More than one entry.
    let mut s = sprite_with_height(0, 4, 240);
    s[4] = 2;
    assert_eq!(get_spr_gby(&s), None);
    assert_eq!(get_spr_gby(&[0u8; 0x3f]), None);
}

#[test]
fn gob_height_resolution() {
    let spr = sprite_with_height(0, 4, 240);
    assert_eq!(resolve_gby(2, 2, Some(&spr)), 4);
    assert_eq!(resolve_gby(2, 2, None), 1);
    assert_eq!(resolve_gby(2, 100, Some(&[1u8, 2, 3])), 16);
}

#[test]
fn tex_decode_uses_companion_height() {
    // 32x64 pixels: 8x16 blocks, rows 2 GOBs wide. Alone the height suggests
    // GOB blocks 2 high; the companion file prescribes 1, which moves block
    // (0,8) from offset 512 to offset 1024.
    let surface = pattern(2048);
    let d = texture(&surface, 0, 32, 64, 1);
    let spr = sprite_with_height(0, 1, 240);
    let own = decode_decompressed(d.clone(), None).unwrap();
    let prescribed = decode_decompressed(d, Some(&spr)).unwrap();
    let blk = 148 + (8 * 8) * 16;
    assert_eq!(&own.dds_data[blk..blk + 16], &surface[512..528]);
    assert_eq!(&prescribed.dds_data[blk..blk + 16], &surface[1024..1040]);
}

#[test]
fn c_api_tex_decode() {
    let data = compress(&texture(&pattern(2048), 0, 32, 64, 1));
    let result = decode_to_dds(&data, None).expect("decode_to_dds returned an error");
    assert!(result.dds_data.len() > 148);
    assert!(result.width >= 4);
    assert!(result.height >= 4);
    assert_eq!(&result.dds_data[0..4], b"DDS ");
}
