use vstd::prelude::*;
use crate::bytes::{le_u64, read_u64_le};
use crate::error::PitaError;
use crate::PitaResult;

verus! {

/// Offset of the section table in a sprite file.
pub const PAIRS_OFFSET: usize = 0x38;

/// Number of sections a sprite file describes.
pub const PAIR_COUNT: usize = 14;

/// Size in bytes of the section table.
pub const PAIRS_SIZE: usize = 224;

/// A section's byte range `start..end` in the sprite file.
#[derive(Debug, Clone, Copy)]
pub struct SprPair {
    pub start: u64,
    pub end: u64,
}

impl SprPair {
    /// A section is empty when its range starts where it ends.
    pub fn is_empty(&self) -> (r: bool)
        ensures
            r == (self.start == self.end),
    {
        self.start == self.end
    }

    /// Length of the range, zero when it runs backwards.
    pub fn size(&self) -> (r: u64)
        ensures
            r == (if self.end >= self.start {
                self.end - self.start
            } else {
                0
            }),
    {
        self.end.saturating_sub(self.start)
    }
}

/// The section range stored as entry `i` of the table in `data`, before
/// any clamping.
pub open spec fn stored_pair(data: Seq<u8>, i: int) -> (int, int) {
    let off = PAIRS_OFFSET + 16 * i;
    (le_u64(data, off), le_u64(data, off + 8))
}

/// The section ranges that `parse_pairs` returns: the stored ranges, with
/// the end of the last one cut back to the end of the file.
pub open spec fn pairs_of(pairs: Seq<SprPair>, data: Seq<u8>) -> bool {
    &&& pairs.len() == PAIR_COUNT
    &&& forall|i: int|
        0 <= i < PAIR_COUNT ==> {
            let (s, e) = #[trigger] stored_pair(data, i);
            &&& pairs[i].start == s
            &&& pairs[i].end == (if i == PAIR_COUNT - 1 && e > data.len() {
                data.len() as int
            } else {
                e
            })
        }
}

fn read_pair(data: &[u8], i: usize) -> (p: SprPair)
    requires
        i < PAIR_COUNT,
        PAIRS_OFFSET + PAIRS_SIZE <= data@.len(),
    ensures
        (p.start as int, p.end as int) == stored_pair(data@, i as int),
{
    let off = PAIRS_OFFSET + i * 16;
    SprPair { start: read_u64_le(data, off), end: read_u64_le(data, off + 8) }
}

/// Reads the fourteen section ranges; fails with `Truncated` when the data
/// ends before the table does. The end of the last range is unreliable in
/// some files and is cut back to the file size.
pub fn parse_pairs(data: &[u8]) -> (r: PitaResult<[SprPair; 14]>)
    ensures
        data@.len() < PAIRS_OFFSET + PAIRS_SIZE ==> r == Err::<[SprPair; 14], PitaError>(
            PitaError::Truncated,
        ),
        data@.len() >= PAIRS_OFFSET + PAIRS_SIZE ==> (r matches Ok(p) && pairs_of(p@, data@)),
        r matches Ok(p) ==> {
            &&& p@.len() == PAIR_COUNT
            &&& (forall|i: int|
                0 <= i < PAIR_COUNT ==> p@[i].start == le_u64(data@, 0x38 + 16 * i))
            &&& (forall|i: int|
                0 <= i < PAIR_COUNT - 1 ==> p@[i].end == le_u64(data@, 0x38 + 16 * i + 8))
            &&& p@[13].end == (if le_u64(data@, 0x38int + 16 * 13 + 8) > data@.len() {
                data@.len() as int
            } else {
                le_u64(data@, 0x38int + 16 * 13 + 8)
            })
        },
{
    if data.len() < PAIRS_OFFSET + PAIRS_SIZE {
        return Err(PitaError::Truncated);
    }
    let last = read_pair(data, 13);
    let file_size = data.len() as u64;
    let last_end = if last.end > file_size {
        file_size
    } else {
        last.end
    };
    let pairs: [SprPair; 14] = [
        read_pair(data, 0),
        read_pair(data, 1),
        read_pair(data, 2),
        read_pair(data, 3),
        read_pair(data, 4),
        read_pair(data, 5),
        read_pair(data, 6),
        read_pair(data, 7),
        read_pair(data, 8),
        read_pair(data, 9),
        read_pair(data, 10),
        read_pair(data, 11),
        read_pair(data, 12),
        SprPair { start: last.start, end: last_end },
    ];
    assert forall|i: int| 0 <= i < PAIR_COUNT implies {
        let (s, e) = #[trigger] stored_pair(data@, i);
        &&& pairs@[i].start == s
        &&& pairs@[i].end == (if i == PAIR_COUNT - 1 && e > data@.len() {
            data@.len() as int
        } else {
            e
        })
    } by {
        assert(0 <= i < 14);
    }
    proof {
        lemma_pairs_are_stored_entries(pairs@, data@);
    }
    Ok(pairs)
}

/// The section table of a file is determined by its bytes.
pub proof fn lemma_pairs_of_unique(p: Seq<SprPair>, q: Seq<SprPair>, data: Seq<u8>)
    requires
        pairs_of(p, data),
        pairs_of(q, data),
    ensures
        p == q,
{
    assert forall|i: int| 0 <= i < p.len() implies p[i] == q[i] by {
        let _ = stored_pair(data, i);
    }
    assert(p =~= q);
}

/// Entry `i` of a parsed table is the pair of little-endian 64-bit values
/// stored at `0x38 + 16 * i`, except that the end of the last entry is cut
/// back to the file size.
pub proof fn lemma_pairs_are_stored_entries(pairs: Seq<SprPair>, data: Seq<u8>)
    requires
        pairs_of(pairs, data),
    ensures
        pairs.len() == PAIR_COUNT,
            forall|i: int|
                0 <= i < PAIR_COUNT ==> pairs[i].start == le_u64(data, 0x38 + 16 * i),
            forall|i: int|
                0 <= i < PAIR_COUNT - 1 ==> pairs[i].end == le_u64(data, 0x38 + 16 * i + 8),
            pairs[13].end == (if le_u64(data, 0x38int + 16 * 13 + 8) > data.len() {
                data.len() as int
            } else {
                le_u64(data, 0x38int + 16 * 13 + 8)
            }),
{
    assert forall|i: int| 0 <= i < PAIR_COUNT implies pairs[i].start == le_u64(data, 0x38 + 16 * i) by {
        let _ = stored_pair(data, i);
    }
    assert forall|i: int| 0 <= i < PAIR_COUNT - 1 implies pairs[i].end == le_u64(
        data,
        0x38 + 16 * i + 8,
    ) by {
        let _ = stored_pair(data, i);
    }
    let _ = stored_pair(data, 13);
}

/// After parsing, the last section never runs past the end of the file.
pub proof fn lemma_last_pair_within_file(pairs: Seq<SprPair>, data: Seq<u8>)
    requires
        pairs_of(pairs, data),
    ensures
        pairs[PAIR_COUNT - 1].end <= data.len(),
{
    let _ = stored_pair(data, PAIR_COUNT - 1);
}

} // verus!
