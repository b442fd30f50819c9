use pita::dds::{block_data_size, build_dds_header, bytes_per_block, dxgi_format};

fn u32_at(b: &[u8], off: usize) -> u32 {
    u32::from_le_bytes([b[off], b[off + 1], b[off + 2], b[off + 3]])
}

#[test]
fn bc7_block_parameters() {
    assert_eq!(bytes_per_block(1), 16);
    assert_eq!(bytes_per_block(4), 16);
    assert_eq!(bytes_per_block(7), 16);
    assert_eq!(dxgi_format(1), 98);
    assert_eq!(dxgi_format(1234), 98);
}

#[test]
fn block_data_size_rounds_up_to_blocks() {
    assert_eq!(block_data_size(5, 7, 1), 2 * 2 * 16);
    assert_eq!(block_data_size(8, 8, 1), 64);
    assert_eq!(block_data_size(4, 4, 4), 16);
    assert_eq!(block_data_size(8192, 8192, 1), 2048 * 2048 * 16);
    assert_eq!(block_data_size(0, 9, 1), 0);
}

#[test]
fn dds_header_layout() {
    let h = build_dds_header(300, 200, 12345, 1);
    assert_eq!(h.len(), 148);
    assert_eq!(&h[0..4], b"DDS ");
    assert_eq!(u32_at(&h, 4), 124);
    assert_eq!(u32_at(&h, 8), 0x00081007);
    assert_eq!(u32_at(&h, 12), 200);
    assert_eq!(u32_at(&h, 16), 300);
    assert_eq!(u32_at(&h, 20), 12345);
    assert_eq!(u32_at(&h, 24), 0);
    assert_eq!(u32_at(&h, 28), 0);
    assert!(h[32..76].iter().all(|&b| b == 0));
    assert_eq!(u32_at(&h, 76), 32);
    assert_eq!(u32_at(&h, 80), 4);
    assert_eq!(&h[84..88], b"DX10");
    assert!(h[88..108].iter().all(|&b| b == 0));
    assert_eq!(u32_at(&h, 108), 0x1000);
    assert!(h[112..128].iter().all(|&b| b == 0));
    assert_eq!(u32_at(&h, 128), 98);
    assert_eq!(u32_at(&h, 132), 3);
    assert_eq!(u32_at(&h, 136), 0);
    assert_eq!(u32_at(&h, 140), 1);
    assert_eq!(u32_at(&h, 144), 0);
}

#[test]
fn dds_header_extreme_values() {
    let h = build_dds_header(u32::MAX, 0, 0xdeadbeef, 4);
    assert_eq!(h.len(), 148);
    assert_eq!(u32_at(&h, 12), 0);
    assert_eq!(u32_at(&h, 16), u32::MAX);
    assert_eq!(&h[20..24], &[0xef, 0xbe, 0xad, 0xde]);
}
