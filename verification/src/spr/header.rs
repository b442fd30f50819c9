use vstd::prelude::*;
use crate::bytes::{le_u32, read_u32_le};
use crate::error::PitaError;
use crate::PitaResult;

verus! {

/// Index of the flags field.
pub const IDX_FLAGS: usize = 0;

/// Index of the count field.
pub const IDX_CNT: usize = 1;

/// Index of the field at byte 0x14.
pub const IDX_FIELD5: usize = 5;

/// Index of the field at byte 0x1c.
pub const IDX_FIELD7: usize = 7;

/// Index of the field at byte 0x24.
pub const IDX_FIELD9: usize = 9;

/// Index of the field at byte 0x30.
pub const IDX_FIELD12: usize = 12;

/// Number of 32-bit fields in the header.
pub const SPR_FIELD_COUNT: usize = 14;

/// Size in bytes of the header.
pub const SPR_HEADER_LEN: usize = 56;

/// The fourteen little-endian 32-bit fields that open a sprite file.
#[derive(Debug, Clone, Copy)]
pub struct SprHeader {
    pub raw: [u32; 14],
}

/// Field `i` of the header stored at the start of `data`.
pub open spec fn header_field(data: Seq<u8>, i: int) -> int {
    le_u32(data, 4 * i)
}

/// Whether `h` holds exactly the header fields stored at the start of `data`.
pub open spec fn is_header_of(h: SprHeader, data: Seq<u8>) -> bool {
    &&& h.raw@.len() == SPR_FIELD_COUNT
    &&& forall|i: int| 0 <= i < SPR_FIELD_COUNT ==> h.raw@[i] == #[trigger] header_field(data, i)
}

impl SprHeader {
    /// Reads the header; fails with `Truncated` when the data is shorter
    /// than the 56 bytes of the header.
    pub fn parse(data: &[u8]) -> (r: PitaResult<Self>)
        ensures
            data@.len() < SPR_HEADER_LEN ==> r == Err::<SprHeader, PitaError>(PitaError::Truncated),
            data@.len() >= SPR_HEADER_LEN ==> (r matches Ok(h) && is_header_of(h, data@)),
    {
        if data.len() < SPR_HEADER_LEN {
            return Err(PitaError::Truncated);
        }
        let raw: [u32; 14] = [
            read_u32_le(data, 0),
            read_u32_le(data, 4),
            read_u32_le(data, 8),
            read_u32_le(data, 12),
            read_u32_le(data, 16),
            read_u32_le(data, 20),
            read_u32_le(data, 24),
            read_u32_le(data, 28),
            read_u32_le(data, 32),
            read_u32_le(data, 36),
            read_u32_le(data, 40),
            read_u32_le(data, 44),
            read_u32_le(data, 48),
            read_u32_le(data, 52),
        ];
        let h = SprHeader { raw };
        assert forall|i: int| 0 <= i < SPR_FIELD_COUNT implies h.raw@[i] == #[trigger] header_field(
            data@,
            i,
        ) by {
            assert(0 <= i < 14);
        }
        Ok(h)
    }

    /// Header field `index`, or `None` for an index outside the fourteen fields.
    pub fn field(&self, index: i32) -> (r: Option<u32>)
        ensures
            0 <= index < SPR_FIELD_COUNT ==> r == Some(self.raw@[index as int]),
            !(0 <= index < SPR_FIELD_COUNT) ==> r is None,
    {
        if 0 <= index && (index as usize) < SPR_FIELD_COUNT {
            Some(self.raw[index as usize])
        } else {
            None
        }
    }

    /// The flags field.
    pub fn flags(&self) -> (r: u32)
        ensures
            r == self.raw@[IDX_FLAGS as int],
    {
        self.raw[IDX_FLAGS]
    }

    /// The count field.
    pub fn cnt(&self) -> (r: u32)
        ensures
            r == self.raw@[IDX_CNT as int],
    {
        self.raw[IDX_CNT]
    }

    /// The field at byte 0x14.
    pub fn h14(&self) -> (r: u32)
        ensures
            r == self.raw@[IDX_FIELD5 as int],
    {
        self.raw[IDX_FIELD5]
    }

    /// The field at byte 0x1c.
    pub fn h1c(&self) -> (r: u32)
        ensures
            r == self.raw@[IDX_FIELD7 as int],
    {
        self.raw[IDX_FIELD7]
    }

    /// The field at byte 0x24.
    pub fn h24(&self) -> (r: u32)
        ensures
            r == self.raw@[IDX_FIELD9 as int],
    {
        self.raw[IDX_FIELD9]
    }

    /// The field at byte 0x30.
    pub fn h30(&self) -> (r: u32)
        ensures
            r == self.raw@[IDX_FIELD12 as int],
    {
        self.raw[IDX_FIELD12]
    }
}

} // verus!
