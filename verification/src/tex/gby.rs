use vstd::prelude::*;
use crate::bytes::{le_u32, read_u32_le};
use crate::swizzle::{detect_gob_blocks_y, gob_blocks_for_height};

verus! {

/// The GOB block heights a sprite file may prescribe.
pub open spec fn is_gob_height(v: int) -> bool {
    v == 1 || v == 2 || v == 4 || v == 8 || v == 16
}

/// The GOB block height that a companion sprite file prescribes, if any:
/// a file with a single entry (count field 1) carries it 236 bytes past the
/// offset stored at 0x38, when the file is long enough and the value is one
/// of the heights the hardware knows.
pub open spec fn spr_gob_height(spr: Seq<u8>) -> Option<u32> {
    if spr.len() < 0x40 {
        None
    } else {
        let cnt = le_u32(spr, 4);
        let tbl = le_u32(spr, 0x38);
        let extra_off = tbl + 32;
        if cnt == 1 && extra_off + 208 <= spr.len() {
            let v = le_u32(spr, extra_off + 204);
            if is_gob_height(v) {
                Some(v as u32)
            } else {
                None
            }
        } else {
            None
        }
    }
}

/// Whether a sprite file has a single entry (count field 1) and is long
/// enough to hold the GOB block height 236 bytes past its table offset.
pub open spec fn has_height_slot(s: Seq<u8>) -> bool {
    &&& s.len() >= 0x40
    &&& le_u32(s, 4) == 1
    &&& le_u32(s, 0x38) + 240 <= s.len()
}

/// The value stored in a sprite file's GOB block height slot.
pub open spec fn height_slot(s: Seq<u8>) -> int {
    le_u32(s, le_u32(s, 0x38) + 236)
}

/// A companion sprite prescribes exactly the heights 1, 2, 4, 8 and 16
/// that its slot holds, and nothing when it has no slot or the slot holds
/// any other value.
pub proof fn lemma_spr_gob_height_values(s: Seq<u8>)
    ensures
        has_height_slot(s) && (height_slot(s) == 1 || height_slot(s) == 2 || height_slot(s) == 4
            || height_slot(s) == 8 || height_slot(s) == 16) ==> spr_gob_height(s) == Some(
            height_slot(s) as u32,
        ),
        !(has_height_slot(s) && (height_slot(s) == 1 || height_slot(s) == 2 || height_slot(s) == 4
            || height_slot(s) == 8 || height_slot(s) == 16)) ==> spr_gob_height(s) is None,
{
}

/// Reads the GOB block height a companion sprite file prescribes.
pub fn get_spr_gby(spr_data: &[u8]) -> (r: Option<u32>)
    ensures
        r == spr_gob_height(spr_data@),
        has_height_slot(spr_data@) && (height_slot(spr_data@) == 1 || height_slot(spr_data@) == 2
            || height_slot(spr_data@) == 4 || height_slot(spr_data@) == 8 || height_slot(spr_data@)
            == 16) ==> r == Some(height_slot(spr_data@) as u32),
        !(has_height_slot(spr_data@) && (height_slot(spr_data@) == 1 || height_slot(spr_data@) == 2
            || height_slot(spr_data@) == 4 || height_slot(spr_data@) == 8 || height_slot(spr_data@)
            == 16)) ==> r is None,
{
    if spr_data.len() < 0x40 {
        return None;
    }
    let cnt = read_u32_le(spr_data, 4);
    let tbl = read_u32_le(spr_data, 0x38);
    if cnt == 1 {
        let extra_off = tbl as u64 + 32;
        if extra_off + 208 <= spr_data.len() as u64 {
            let v = read_u32_le(spr_data, (extra_off + 204) as usize);
            if v == 1 || v == 2 || v == 4 || v == 8 || v == 16 {
                return Some(v);
            }
        }
    }
    None
}

/// The bytes of an optional borrowed byte slice.
pub open spec fn opt_bytes(o: Option<&[u8]>) -> Option<Seq<u8>> {
    match o {
        Some(s) => Some(s@),
        None => None,
    }
}

/// Whether no companion file prescribes a GOB block height.
pub open spec fn no_prescribed_height(spr: Option<Seq<u8>>) -> bool {
    match spr {
        Some(s) => spr_gob_height(s) is None,
        None => true,
    }
}

/// The GOB block height used for a surface: the one a companion sprite file
/// prescribes, else the one its height suggests.
pub open spec fn resolved_gob_height(hb: int, spr: Option<Seq<u8>>) -> u32 {
    match spr {
        Some(s) => match spr_gob_height(s) {
            Some(v) => v,
            None => gob_blocks_for_height(hb),
        },
        None => gob_blocks_for_height(hb),
    }
}

/// Picks the GOB block height of a surface `wb` x `hb` blocks large.
pub fn resolve_gby(wb: u32, hb: u32, companion_spr: Option<&[u8]>) -> (r: u32)
    requires
        no_prescribed_height(opt_bytes(companion_spr)) ==> hb + hb / 2 <= u32::MAX,
    ensures
        r == resolved_gob_height(hb as int, opt_bytes(companion_spr)),
        (match companion_spr {
            Some(s) => match spr_gob_height(s@) {
                Some(v) => r == v,
                None => true,
            },
            None => true,
        }),
        no_prescribed_height(opt_bytes(companion_spr)) ==> r == gob_blocks_for_height(hb as int),
{
    if let Some(spr) = companion_spr {
        if let Some(gby) = get_spr_gby(spr) {
            return gby;
        }
    }
    detect_gob_blocks_y(wb, hb)
}

/// Whatever the companion file holds, the GOB block height used is one of
/// the heights the hardware knows.
pub proof fn lemma_resolved_gob_height(hb: int, spr: Option<Seq<u8>>)
    ensures
        is_gob_height(resolved_gob_height(hb, spr) as int),
{
}

} // verus!
