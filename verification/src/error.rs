use vstd::prelude::*;

verus! {

/// Every way in which decoding can fail.
#[derive(Debug, Clone, Copy, PartialEq, Eq, Structural)]
pub enum PitaError {
    Success,
    InvalidArg,
    BadMagic,
    Truncated,
    DecompressFailed,
    BadFooter,
    DeswizzleOverflow,
    SprHeaderInvalid,
    SprSectionOverlap,
    Internal,
}

/// The numeric code of each error, as handed across the C interface.
pub open spec fn error_code(e: PitaError) -> int {
    match e {
        PitaError::Success => 0,
        PitaError::InvalidArg => -1,
        PitaError::BadMagic => -2,
        PitaError::Truncated => -3,
        PitaError::DecompressFailed => -4,
        PitaError::BadFooter => -5,
        PitaError::DeswizzleOverflow => -6,
        PitaError::SprHeaderInvalid => -7,
        PitaError::SprSectionOverlap => -8,
        PitaError::Internal => -99,
    }
}

/// The human-readable message of each error, without a terminating NUL.
pub open spec fn error_message(e: PitaError) -> Seq<char> {
    match e {
        PitaError::Success => "Success"@,
        PitaError::InvalidArg => "Invalid argument"@,
        PitaError::BadMagic => "Bad magic bytes (not zstd)"@,
        PitaError::Truncated => "Truncated file"@,
        PitaError::DecompressFailed => "Zstd decompression failed"@,
        PitaError::BadFooter => "Bad footer"@,
        PitaError::DeswizzleOverflow => "Deswizzle offset overflow"@,
        PitaError::SprHeaderInvalid => "Invalid SPR header"@,
        PitaError::SprSectionOverlap => "SPR sections overlap"@,
        PitaError::Internal => "Internal error"@,
    }
}

/// The error that a numeric code stands for; unknown codes stand for `Internal`.
pub open spec fn error_from_code(code: int) -> PitaError {
    if code == 0 {
        PitaError::Success
    } else if code == -1 {
        PitaError::InvalidArg
    } else if code == -2 {
        PitaError::BadMagic
    } else if code == -3 {
        PitaError::Truncated
    } else if code == -4 {
        PitaError::DecompressFailed
    } else if code == -5 {
        PitaError::BadFooter
    } else if code == -6 {
        PitaError::DeswizzleOverflow
    } else if code == -7 {
        PitaError::SprHeaderInvalid
    } else if code == -8 {
        PitaError::SprSectionOverlap
    } else {
        PitaError::Internal
    }
}

impl PitaError {
    /// The message as a NUL-terminated string, ready to be handed to C.
    pub fn c_str(&self) -> (s: &'static str)
        ensures
            s@ == error_message(*self).push('\0'),
    {
        let s = match self {
            PitaError::Success => "Success\0",
            PitaError::InvalidArg => "Invalid argument\0",
            PitaError::BadMagic => "Bad magic bytes (not zstd)\0",
            PitaError::Truncated => "Truncated file\0",
            PitaError::DecompressFailed => "Zstd decompression failed\0",
            PitaError::BadFooter => "Bad footer\0",
            PitaError::DeswizzleOverflow => "Deswizzle offset overflow\0",
            PitaError::SprHeaderInvalid => "Invalid SPR header\0",
            PitaError::SprSectionOverlap => "SPR sections overlap\0",
            PitaError::Internal => "Internal error\0",
        };
        proof {
            reveal_strlit("Success\0");
            reveal_strlit("Success");
            reveal_strlit("Invalid argument\0");
            reveal_strlit("Invalid argument");
            reveal_strlit("Bad magic bytes (not zstd)\0");
            reveal_strlit("Bad magic bytes (not zstd)");
            reveal_strlit("Truncated file\0");
            reveal_strlit("Truncated file");
            reveal_strlit("Zstd decompression failed\0");
            reveal_strlit("Zstd decompression failed");
            reveal_strlit("Bad footer\0");
            reveal_strlit("Bad footer");
            reveal_strlit("Deswizzle offset overflow\0");
            reveal_strlit("Deswizzle offset overflow");
            reveal_strlit("Invalid SPR header\0");
            reveal_strlit("Invalid SPR header");
            reveal_strlit("SPR sections overlap\0");
            reveal_strlit("SPR sections overlap");
            reveal_strlit("Internal error\0");
            reveal_strlit("Internal error");
        }
        assert(s@ =~= error_message(*self).push('\0'));
        s
    }

    /// The message without its terminating NUL, as the error is displayed.
    pub fn message(&self) -> (s: &'static str)
        ensures
            s@ == error_message(*self),
    {
        match self {
            PitaError::Success => "Success",
            PitaError::InvalidArg => "Invalid argument",
            PitaError::BadMagic => "Bad magic bytes (not zstd)",
            PitaError::Truncated => "Truncated file",
            PitaError::DecompressFailed => "Zstd decompression failed",
            PitaError::BadFooter => "Bad footer",
            PitaError::DeswizzleOverflow => "Deswizzle offset overflow",
            PitaError::SprHeaderInvalid => "Invalid SPR header",
            PitaError::SprSectionOverlap => "SPR sections overlap",
            PitaError::Internal => "Internal error",
        }
    }

    /// The numeric code of the error.
    pub fn code(&self) -> (c: i32)
        ensures
            c == error_code(*self),
    {
        match self {
            PitaError::Success => 0,
            PitaError::InvalidArg => -1,
            PitaError::BadMagic => -2,
            PitaError::Truncated => -3,
            PitaError::DecompressFailed => -4,
            PitaError::BadFooter => -5,
            PitaError::DeswizzleOverflow => -6,
            PitaError::SprHeaderInvalid => -7,
            PitaError::SprSectionOverlap => -8,
            PitaError::Internal => -99,
        }
    }

    /// The error that a numeric code stands for; unknown codes give `Internal`.
    pub fn from_code(code: i32) -> (e: PitaError)
        ensures
            e == error_from_code(code as int),
    {
        match code {
            0 => PitaError::Success,
            -1 => PitaError::InvalidArg,
            -2 => PitaError::BadMagic,
            -3 => PitaError::Truncated,
            -4 => PitaError::DecompressFailed,
            -5 => PitaError::BadFooter,
            -6 => PitaError::DeswizzleOverflow,
            -7 => PitaError::SprHeaderInvalid,
            -8 => PitaError::SprSectionOverlap,
            _ => PitaError::Internal,
        }
    }
}

/// Every error survives the trip through its numeric code: decoding the code
/// of an error gives that error back.
pub proof fn lemma_code_roundtrip(e: PitaError)
    ensures
        error_from_code(error_code(e)) == e,
{
}

/// Distinct errors have distinct codes.
pub proof fn lemma_code_injective(a: PitaError, b: PitaError)
    ensures
        error_code(a) == error_code(b) <==> a == b,
{
}

/// No message holds a NUL, so the one that `c_str` appends is the only one
/// and a C reader sees exactly the message.
pub proof fn lemma_message_has_no_nul(e: PitaError)
    ensures
        !error_message(e).contains('\0'),
{
    reveal_strlit("Success");
    reveal_strlit("Invalid argument");
    reveal_strlit("Bad magic bytes (not zstd)");
    reveal_strlit("Truncated file");
    reveal_strlit("Zstd decompression failed");
    reveal_strlit("Bad footer");
    reveal_strlit("Deswizzle offset overflow");
    reveal_strlit("Invalid SPR header");
    reveal_strlit("SPR sections overlap");
    reveal_strlit("Internal error");
}

} // verus!
