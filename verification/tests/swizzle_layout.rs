use pita::swizzle::{compute_width_in_gobs, deswizzle_block_linear, detect_gob_blocks_y, swizzle_block_linear};

fn pattern(n: usize) -> Vec<u8> {
    (0..n).map(|i| (i % 251) as u8).collect()
}

#[test]
fn gob_height_from_block_rows() {
    assert_eq!(detect_gob_blocks_y(0, 0), 1);
    assert_eq!(detect_gob_blocks_y(0, 10), 1);
    assert_eq!(detect_gob_blocks_y(0, 11), 2);
    assert_eq!(detect_gob_blocks_y(0, 21), 2);
    assert_eq!(detect_gob_blocks_y(0, 22), 4);
    assert_eq!(detect_gob_blocks_y(0, 43), 8);
    assert_eq!(detect_gob_blocks_y(0, 85), 8);
    assert_eq!(detect_gob_blocks_y(0, 86), 16);
    assert_eq!(detect_gob_blocks_y(0, 2048), 16);
}

#[test]
fn width_in_gobs_rounds_up() {
    assert_eq!(compute_width_in_gobs(5, 16), 2);
    assert_eq!(compute_width_in_gobs(4, 16), 1);
    assert_eq!(compute_width_in_gobs(0, 16), 0);
    assert_eq!(compute_width_in_gobs(64, 16), 16);
    assert_eq!(compute_width_in_gobs(65, 16), 17);
}

#[test]
fn deswizzle_small_surface() {
    // 8x8 pixels: 2x2 blocks of 16 bytes inside one GOB.
    let data = pattern(512);
    let out = deswizzle_block_linear(&data, 8, 8, 16, 1, 1).unwrap();
    assert_eq!(out.len(), 64);
    assert_eq!(&out[0..16], &data[0..16]);
    assert_eq!(&out[16..32], &data[32..48]);
    assert_eq!(&out[32..48], &data[16..32]);
    assert_eq!(&out[48..64], &data[48..64]);
}

#[test]
fn deswizzle_zero_bpb_means_sixteen() {
    let data = pattern(512);
    let a = deswizzle_block_linear(&data, 8, 8, 0, 1, 1).unwrap();
    let b = deswizzle_block_linear(&data, 8, 8, 16, 1, 1).unwrap();
    assert_eq!(a, b);
}

#[test]
fn deswizzle_short_data_leaves_zero_blocks() {
    // Only the first 20 bytes exist: block (0,0) is complete, block (0,1)
    // at offset 16 is not, so it stays zero.
    let data = pattern(20);
    let out = deswizzle_block_linear(&data, 8, 8, 16, 1, 1).unwrap();
    assert_eq!(out.len(), 64);
    assert_eq!(&out[0..16], &data[0..16]);
    assert!(out[16..64].iter().all(|&b| b == 0));
}

#[test]
fn deswizzle_reads_only_first_mip() {
    // The first mip level of an 8x8 surface is 512 bytes; a block placed
    // past it is never read even when the data is longer.
    let data = pattern(2048);
    let out = deswizzle_block_linear(&data, 8, 8, 16, 1, 1).unwrap();
    assert_eq!(&out[48..64], &data[48..64]);
}

#[test]
fn swizzle_places_blocks() {
    let data = pattern(64);
    let out = swizzle_block_linear(&data, 8, 8, 16, 1, 1).unwrap();
    assert_eq!(out.len(), 512);
    assert_eq!(&out[0..16], &data[0..16]);
    assert_eq!(&out[32..48], &data[16..32]);
    assert_eq!(&out[16..32], &data[32..48]);
    assert_eq!(&out[48..64], &data[48..64]);
    assert!(out[64..].iter().all(|&b| b == 0));
}

#[test]
fn swizzle_offsets_of_a_larger_surface() {
    // 256x256 pixels, GOB blocks 8 GOBs high, 16 GOBs wide.
    let wb = 64usize;
    let data = pattern(64 * 64 * 16);
    let out = swizzle_block_linear(&data, 256, 256, 16, 8, 16).unwrap();
    assert_eq!(out.len(), 65536);
    let block = |bx: usize, by: usize| &data[(by * wb + bx) * 16..(by * wb + bx) * 16 + 16];
    assert_eq!(&out[4208..4224], block(5, 3));
    assert_eq!(&out[65520..65536], block(63, 63));
    assert_eq!(&out[8448..8464], block(10, 0));
}

#[test]
fn deswizzle_undoes_swizzle() {
    for &(w, h, gby) in &[(8u32, 8u32, 1u32), (256, 256, 8), (100, 36, 2), (64, 300, 16), (12, 4, 4)] {
        let wb = ((w + 3) / 4) as usize;
        let hb = ((h + 3) / 4) as usize;
        let wig = compute_width_in_gobs(wb as u32, 16);
        let data = pattern(wb * hb * 16);
        let sw = swizzle_block_linear(&data, w, h, 16, gby, wig).unwrap();
        let back = deswizzle_block_linear(&sw, w, h, 16, gby, wig).unwrap();
        assert_eq!(back, data, "{}x{} gby {}", w, h, gby);
    }
}

#[test]
fn deswizzle_undoes_swizzle_small_blocks() {
    for &bpb in &[1u32, 2, 4, 8] {
        let (w, h, gby) = (40u32, 24u32, 2u32);
        let wb = ((w + 3) / 4) as usize;
        let hb = ((h + 3) / 4) as usize;
        let wig = compute_width_in_gobs(wb as u32, bpb);
        let data = pattern(wb * hb * bpb as usize);
        let sw = swizzle_block_linear(&data, w, h, bpb, gby, wig).unwrap();
        let back = deswizzle_block_linear(&sw, w, h, bpb, gby, wig).unwrap();
        assert_eq!(back, data, "bpb {}", bpb);
    }
}
