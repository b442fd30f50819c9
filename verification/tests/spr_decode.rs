use pita::error::PitaError;
use pita::spr::decoder::decode;
use pita::spr::header::SprHeader;
use pita::spr::pair::{parse_pairs, SprPair};
use pita::spr::section::extract_sections;

fn put_u32(b: &mut [u8], off: usize, v: u32) {
    b[off..off + 4].copy_from_slice(&v.to_le_bytes());
}

fn put_u64(b: &mut [u8], off: usize, v: u64) {
    b[off..off + 8].copy_from_slice(&v.to_le_bytes());
}

/// A sprite file of `len` bytes with header field i = 100 + i and the given
/// section ranges.
fn sprite(len: usize, ranges: &[(u64, u64)]) -> Vec<u8> {
    let mut b: Vec<u8> = (0..len).map(|i| (i % 253) as u8).collect();
    for i in 0..14 {
        put_u32(&mut b, i * 4, 100 + i as u32);
    }
    for i in 0..14 {
        let (s, e) = ranges.get(i).copied().unwrap_or((0, 0));
        put_u64(&mut b, 0x38 + i * 16, s);
        put_u64(&mut b, 0x38 + i * 16 + 8, e);
    }
    b
}

#[test]
fn spr_header_fields() {
    let data = sprite(300, &[]);
    let h = SprHeader::parse(&data).unwrap();
    for i in 0..14 {
        assert_eq!(h.raw[i], 100 + i as u32);
    }
    assert_eq!(h.flags(), 100);
    assert_eq!(h.cnt(), 101);
    assert_eq!(h.h14(), 105);
    assert_eq!(h.h1c(), 107);
    assert_eq!(h.h24(), 109);
    assert_eq!(h.h30(), 112);
    assert!(h.cnt() <= 1000);
    assert!(h.h1c() <= 1000);
    assert_eq!(h.field(1), Some(101));
    assert_eq!(h.field(13), Some(113));
    assert_eq!(h.field(14), None);
    assert_eq!(h.field(-1), None);
}

#[test]
fn spr_header_truncated() {
    assert_eq!(SprHeader::parse(&[0u8; 55]).err(), Some(PitaError::Truncated));
    assert!(SprHeader::parse(&[0u8; 56]).is_ok());
}

#[test]
fn spr_pair_size_and_emptiness() {
    let p = SprPair { start: 10, end: 30 };
    assert_eq!(p.size(), 20);
    assert!(!p.is_empty());
    let q = SprPair { start: 30, end: 10 };
    assert_eq!(q.size(), 0);
    let e = SprPair { start: 7, end: 7 };
    assert!(e.is_empty());
    assert_eq!(e.size(), 0);
}

#[test]
fn spr_pairs_parsed_and_last_clamped() {
    let data = sprite(300, &[(280, 290), (0, 0), (0, 0), (0, 0), (0, 0), (0, 0), (0, 0), (0, 0), (0, 0),
        (0, 0), (0, 0), (0, 0), (0, 0), (290, 5000)]);
    let pairs = parse_pairs(&data).unwrap();
    assert_eq!((pairs[0].start, pairs[0].end), (280, 290));
    assert_eq!((pairs[13].start, pairs[13].end), (290, 300));
    assert_eq!(parse_pairs(&data[..279]).err(), Some(PitaError::Truncated));
}

#[test]
fn spr_decode_all() {
    let data = sprite(320, &[(280, 290), (0, 0), (300, 320), (0, 0), (0, 0), (0, 0), (0, 0), (0, 0),
        (0, 0), (0, 0), (0, 0), (0, 0), (0, 0), (290, 300)]);
    let d = decode(&data).unwrap();
    assert_eq!(d.header.cnt(), 101);
    assert_eq!(d.sections.blobs.len(), 14);
    assert_eq!(d.sections.get(0), &data[280..290]);
    assert_eq!(d.sections.get(2), &data[300..320]);
    assert_eq!(d.sections.get(13), &data[290..300]);
    assert_eq!(d.sections.len(0), 10);
    assert_eq!(d.sections.len(1), 0);
    assert!(d.sections.is_empty(1));
    assert!(!d.sections.is_empty(2));
    assert_eq!(d.sections.get(99), &[] as &[u8]);
    assert_eq!(d.sections.len(99), 0);
    assert!(d.sections.is_empty(99));
}

#[test]
fn spr_decode_truncated() {
    assert_eq!(decode(&[0u8; 10]).err(), Some(PitaError::Truncated));
    let data = sprite(300, &[]);
    assert_eq!(decode(&data[..279]).err(), Some(PitaError::Truncated));
    assert!(decode(&data[..280]).is_ok());
}

#[test]
fn spr_overlapping_sections_rejected() {
    let data = sprite(320, &[(280, 300), (290, 310)]);
    assert_eq!(decode(&data).err(), Some(PitaError::SprSectionOverlap));
}

#[test]
fn spr_touching_sections_accepted() {
    let data = sprite(320, &[(280, 300), (300, 310)]);
    assert!(decode(&data).is_ok());
}

#[test]
fn spr_section_past_end_rejected() {
    let data = sprite(300, &[(280, 301)]);
    assert_eq!(decode(&data).err(), Some(PitaError::SprSectionOverlap));
}

#[test]
fn spr_backwards_section_rejected() {
    let data = sprite(300, &[(290, 280)]);
    assert_eq!(decode(&data).err(), Some(PitaError::SprSectionOverlap));
}

#[test]
fn spr_extract_sections_directly() {
    let data: Vec<u8> = (0..50u8).collect();
    let mut pairs = [SprPair { start: 0, end: 0 }; 14];
    pairs[3] = SprPair { start: 5, end: 9 };
    pairs[7] = SprPair { start: 9, end: 12 };
    let s = extract_sections(&data, &pairs).unwrap();
    assert_eq!(s.get(3), &[5u8, 6, 7, 8]);
    assert_eq!(s.get(7), &[9u8, 10, 11]);
    pairs[8] = SprPair { start: 11, end: 20 };
    assert_eq!(extract_sections(&data, &pairs).err(), Some(PitaError::SprSectionOverlap));
}

#[test]
fn c_api_spr_decode() {
    let data = sprite(320, &[(280, 290)]);
    let spr = decode(&data).expect("decode returned an error");
    let cnt = spr.header.field(1);
    assert_eq!(cnt, Some(101));
    let sec = spr.sections.get(0);
    assert_eq!(sec.len(), 10);
}

#[test]
fn spr_sections_fit_in_file() {
    let data = sprite(320, &[(280, 290), (290, 300), (300, 320), (0, 0), (0, 0), (0, 0), (0, 0),
        (0, 0), (0, 0), (0, 0), (0, 0), (0, 0), (0, 0), (56, 280)]);
    let d = decode(&data).unwrap();
    let total: usize = (0..14).map(|i| d.sections.len(i)).sum();
    assert_eq!(total, 10 + 10 + 20 + 224);
    assert!(total <= data.len());
}
