use vstd::prelude::*;
use crate::error::PitaError;
use crate::spr::header::{is_header_of, SprHeader};
use crate::spr::pair::{lemma_pairs_of_unique, pairs_of, parse_pairs, SprPair, PAIRS_OFFSET, PAIRS_SIZE, PAIR_COUNT};
use crate::spr::section::{extract_sections, section_bytes, sections_valid, SprSections};
use crate::PitaResult;

verus! {

/// A decoded sprite file: its header, its section table and its sections.
#[derive(Debug)]
pub struct SprDecoded {
    pub header: SprHeader,
    pub pairs: [SprPair; 14],
    pub sections: SprSections,
}

/// Whether `d` is what decoding `data` gives: the header and table read
/// from the file, and each section cut out of it.
pub open spec fn is_decoding_of(d: SprDecoded, data: Seq<u8>) -> bool {
    &&& is_header_of(d.header, data)
    &&& pairs_of(d.pairs@, data)
    &&& sections_valid(d.pairs@, data.len() as int)
    &&& d.sections@.len() == PAIR_COUNT
    &&& forall|i: int|
        0 <= i < PAIR_COUNT ==> #[trigger] d.sections@[i] == section_bytes(data, d.pairs@[i])
}

/// Whether the section table stored in `data` describes valid sections.
pub open spec fn stored_sections_valid(data: Seq<u8>) -> bool {
    forall|p: Seq<SprPair>| pairs_of(p, data) ==> sections_valid(p, data.len() as int)
}

/// Decodes a sprite file. Fails with `Truncated` when the file ends before
/// its section table does, and with `SprSectionOverlap` when the table
/// describes sections outside the file or overlapping each other.
pub fn decode(data: &[u8]) -> (r: PitaResult<SprDecoded>)
    ensures
        data@.len() < PAIRS_OFFSET + PAIRS_SIZE ==> r == Err::<SprDecoded, PitaError>(
            PitaError::Truncated,
        ),
        data@.len() >= PAIRS_OFFSET + PAIRS_SIZE && !stored_sections_valid(data@) ==> r == Err::<
            SprDecoded,
            PitaError,
        >(PitaError::SprSectionOverlap),
        data@.len() >= PAIRS_OFFSET + PAIRS_SIZE && stored_sections_valid(data@) ==> (r matches Ok(
            d,
        ) && is_decoding_of(d, data@)),
{
    let header = SprHeader::parse(data)?;
    let pairs = parse_pairs(data)?;
    proof {
        if !stored_sections_valid(data@) {
            let p = choose|p: Seq<SprPair>| pairs_of(p, data@) && !sections_valid(p, data@.len() as int);
            lemma_pairs_of_unique(p, pairs@, data@);
        }
    }
    let sections = extract_sections(data, &pairs)?;
    Ok(SprDecoded { header, pairs, sections })
}

} // verus!
