use pita::error::PitaError;

const ALL: [PitaError; 10] = [
    PitaError::Success,
    PitaError::InvalidArg,
    PitaError::BadMagic,
    PitaError::Truncated,
    PitaError::DecompressFailed,
    PitaError::BadFooter,
    PitaError::DeswizzleOverflow,
    PitaError::SprHeaderInvalid,
    PitaError::SprSectionOverlap,
    PitaError::Internal,
];

#[test]
fn c_api_error_string() {
    let s = PitaError::from_code(0).c_str();
    assert_eq!(s, "Success\0");
    assert_eq!(&s[..s.len() - 1], "Success");

    let s = PitaError::from_code(-2).c_str();
    assert!(s.len() > 1);
    assert_eq!(s, "Bad magic bytes (not zstd)\0");
}

#[test]
fn error_codes_are_the_c_values() {
    let codes: Vec<i32> = ALL.iter().map(|e| e.code()).collect();
    assert_eq!(codes, vec![0, -1, -2, -3, -4, -5, -6, -7, -8, -99]);
}

#[test]
fn error_code_roundtrip() {
    for e in ALL.iter() {
        assert_eq!(PitaError::from_code(e.code()), *e);
    }
}

#[test]
fn unknown_code_is_internal() {
    assert_eq!(PitaError::from_code(-9), PitaError::Internal);
    assert_eq!(PitaError::from_code(1), PitaError::Internal);
    assert_eq!(PitaError::from_code(i32::MIN), PitaError::Internal);
}

#[test]
fn c_str_is_message_with_one_nul() {
    for e in ALL.iter() {
        let c = e.c_str();
        let m = e.message();
        assert!(c.ends_with('\0'));
        assert_eq!(&c[..c.len() - 1], m);
        assert!(!m.contains('\0'));
    }
    assert_eq!(PitaError::Truncated.message(), "Truncated file");
    assert_eq!(PitaError::SprSectionOverlap.message(), "SPR sections overlap");
}
