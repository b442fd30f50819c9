use vstd::prelude::*;
use crate::bytes::{le_u16, read_u16_le};
use crate::error::PitaError;
use crate::PitaResult;

verus! {

/// Size in bytes of the footer that ends every decompressed texture.
pub const FOOTER_LEN: usize = 0x1000;

/// The fields at the start of the texture footer.
#[derive(Debug, Clone, Copy)]
pub struct TexFooter {
    pub mip_code: u16,
    pub unknown: u16,
    pub width: u16,
    pub height: u16,
    pub format: u16,
}

/// Number of mip levels that a footer's mip code announces.
pub open spec fn mip_count_of(mip_code: u16) -> u32 {
    if mip_code == 0x63 {
        2
    } else if mip_code == 0x64 {
        3
    } else if mip_code == 0x65 {
        4
    } else {
        1
    }
}

impl TexFooter {
    /// Number of mip levels the texture holds.
    pub fn mip_count(&self) -> (r: u32)
        ensures
            r == mip_count_of(self.mip_code),
    {
        match self.mip_code {
            0x63 => 2,
            0x64 => 3,
            0x65 => 4,
            _ => 1,
        }
    }
}

/// The mip codes a footer may hold.
pub open spec fn valid_mip_code(mip_code: u16) -> bool {
    mip_code == 0 || mip_code == 0x63 || mip_code == 0x64 || mip_code == 0x65
}

/// The footer stored 4096 bytes before the end of `d` (which must be at
/// least that long), whatever its fields hold.
pub open spec fn stored_footer(d: Seq<u8>) -> TexFooter {
    let fb = d.len() - FOOTER_LEN;
    TexFooter {
        mip_code: le_u16(d, fb) as u16,
        unknown: le_u16(d, fb + 2) as u16,
        width: le_u16(d, fb + 4) as u16,
        height: le_u16(d, fb + 6) as u16,
        format: le_u16(d, fb + 8) as u16,
    }
}

/// What `read_footer` gives for the decompressed texture `d`: `Truncated`
/// below 4096 bytes, `BadFooter` for dimensions outside 4..=8192 or an
/// unknown mip code, and the footer otherwise.
pub open spec fn footer_of(d: Seq<u8>) -> Result<TexFooter, PitaError> {
    if d.len() < FOOTER_LEN {
        Err(PitaError::Truncated)
    } else {
        let f = stored_footer(d);
        if f.width < 4 || f.height < 4 || f.width > 8192 || f.height > 8192 {
            Err(PitaError::BadFooter)
        } else if !valid_mip_code(f.mip_code) {
            Err(PitaError::BadFooter)
        } else {
            Ok(f)
        }
    }
}

/// Reads and checks the footer of a decompressed texture.
pub fn read_footer(decompressed: &[u8]) -> (r: PitaResult<TexFooter>)
    ensures
        r == footer_of(decompressed@),
        ({
            let d = decompressed@;
            let fb = d.len() - 0x1000;
            let mip = le_u16(d, fb);
            let w = le_u16(d, fb + 4);
            let h = le_u16(d, fb + 6);
            let dims_ok = 4 <= w <= 8192 && 4 <= h <= 8192;
            let mip_ok = mip == 0 || mip == 0x63 || mip == 0x64 || mip == 0x65;
            &&& d.len() < 0x1000 ==> r == Err::<TexFooter, PitaError>(PitaError::Truncated)
            &&& d.len() >= 0x1000 && !dims_ok ==> r == Err::<TexFooter, PitaError>(PitaError::BadFooter)
            &&& d.len() >= 0x1000 && dims_ok && !mip_ok ==> r == Err::<TexFooter, PitaError>(PitaError::BadFooter)
            &&& d.len() >= 0x1000 && dims_ok && mip_ok ==> r == Ok::<TexFooter, PitaError>(TexFooter {
                mip_code: mip as u16,
                unknown: le_u16(d, fb + 2) as u16,
                width: w as u16,
                height: h as u16,
                format: le_u16(d, fb + 8) as u16,
            })
        }),
{
    let file_size = decompressed.len();
    if file_size < FOOTER_LEN {
        return Err(PitaError::Truncated);
    }
    let fb = file_size - FOOTER_LEN;
    if fb + 10 > file_size {
        return Err(PitaError::Truncated);
    }
    let mip_code = read_u16_le(decompressed, fb);
    let unknown = read_u16_le(decompressed, fb + 2);
    let width = read_u16_le(decompressed, fb + 4);
    let height = read_u16_le(decompressed, fb + 6);
    let fmt = read_u16_le(decompressed, fb + 8);
    if width < 4 || height < 4 || width > 8192 || height > 8192 {
        return Err(PitaError::BadFooter);
    }
    if !(mip_code == 0 || mip_code == 0x63 || mip_code == 0x64 || mip_code == 0x65) {
        return Err(PitaError::BadFooter);
    }
    let f = TexFooter { mip_code, unknown, width, height, format: fmt };
    assert(f == stored_footer(decompressed@));
    Ok(f)
}

/// A footer is accepted exactly when the texture is at least 4096 bytes
/// long, its width and height lie in 4..=8192 and its mip code is 0, 0x63,
/// 0x64 or 0x65; an accepted footer holds the five little-endian fields
/// stored at the start of the last 4096 bytes.
pub proof fn lemma_footer_acceptance(d: Seq<u8>)
    ensures
        ({
            let d = d;
            let fb = d.len() - 0x1000;
            let mip = le_u16(d, fb);
            let w = le_u16(d, fb + 4);
            let h = le_u16(d, fb + 6);
            let dims_ok = 4 <= w <= 8192 && 4 <= h <= 8192;
            let mip_ok = mip == 0 || mip == 0x63 || mip == 0x64 || mip == 0x65;
            &&& d.len() < 0x1000 ==> footer_of(d) == Err::<TexFooter, PitaError>(PitaError::Truncated)
            &&& d.len() >= 0x1000 && !dims_ok ==> footer_of(d) == Err::<TexFooter, PitaError>(PitaError::BadFooter)
            &&& d.len() >= 0x1000 && dims_ok && !mip_ok ==> footer_of(d) == Err::<TexFooter, PitaError>(PitaError::BadFooter)
            &&& d.len() >= 0x1000 && dims_ok && mip_ok ==> footer_of(d) == Ok::<TexFooter, PitaError>(TexFooter {
                mip_code: mip as u16,
                unknown: le_u16(d, fb + 2) as u16,
                width: w as u16,
                height: h as u16,
                format: le_u16(d, fb + 8) as u16,
            })
        }),
{
}

/// An accepted footer describes a texture between 4 and 8192 pixels on
/// each side with one to four mip levels.
pub proof fn lemma_footer_bounds(d: Seq<u8>)
    requires
        footer_of(d) is Ok,
    ensures
        4 <= footer_of(d)->Ok_0.width <= 8192,
        4 <= footer_of(d)->Ok_0.height <= 8192,
        1 <= mip_count_of(footer_of(d)->Ok_0.mip_code) <= 4,
{
}

} // verus!
