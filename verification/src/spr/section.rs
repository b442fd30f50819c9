use vstd::prelude::*;
use vstd::slice::{slice_subrange, slice_to_vec};
use vstd::set_lib::{lemma_int_range, lemma_len_subset, lemma_set_disjoint_lens, set_int_range};
use crate::error::PitaError;
use crate::spr::pair::{SprPair, PAIR_COUNT};
use crate::PitaResult;

verus! {

/// The bytes of each section of a sprite file.
#[derive(Debug)]
pub struct SprSections {
    pub blobs: Vec<Vec<u8>>,
}

impl View for SprSections {
    type V = Seq<Seq<u8>>;

    open spec fn view(&self) -> Seq<Seq<u8>> {
        self.blobs@.map_values(|b: Vec<u8>| b@)
    }
}

/// A range is acceptable when it is empty, or runs forwards and ends inside
/// the file.
pub open spec fn pair_in_file(p: SprPair, file_size: int) -> bool {
    p.start == p.end || (p.start <= file_size && p.end <= file_size && p.start < p.end)
}

/// Two non-empty ranges that share at least one byte.
pub open spec fn pairs_overlap(a: SprPair, b: SprPair) -> bool {
    &&& a.start != a.end
    &&& b.start != b.end
    &&& a.start < b.end
    &&& b.start < a.end
}

/// The section table describes sections that lie in the file and do not
/// overlap.
pub open spec fn sections_valid(pairs: Seq<SprPair>, file_size: int) -> bool {
    &&& forall|i: int| 0 <= i < PAIR_COUNT ==> pair_in_file(#[trigger] pairs[i], file_size)
    &&& forall|i: int, j: int|
        0 <= i < j < PAIR_COUNT ==> !pairs_overlap(#[trigger] pairs[i], #[trigger] pairs[j])
}

/// The bytes a range cuts out of the file; an empty range cuts out nothing.
pub open spec fn section_bytes(data: Seq<u8>, p: SprPair) -> Seq<u8> {
    if p.start == p.end {
        Seq::empty()
    } else {
        data.subrange(p.start as int, p.end as int)
    }
}

impl SprSections {
    /// Section `i`, or no bytes when there is no such section.
    pub fn get(&self, i: usize) -> (r: &[u8])
        ensures
            r@ == (if i < self@.len() {
                self@[i as int]
            } else {
                Seq::empty()
            }),
    {
        if i < self.blobs.len() {
            self.blobs[i].as_slice()
        } else {
            let empty: &[u8] = &[];
            assert(empty@ =~= Seq::<u8>::empty());
            empty
        }
    }

    /// Length of section `i`, zero when there is no such section.
    pub fn len(&self, i: usize) -> (r: usize)
        ensures
            r == (if i < self@.len() {
                self@[i as int].len()
            } else {
                0
            }),
    {
        if i < self.blobs.len() {
            self.blobs[i].len()
        } else {
            0
        }
    }

    /// Whether section `i` holds no bytes (or does not exist).
    pub fn is_empty(&self, i: usize) -> (r: bool)
        ensures
            r == (if i < self@.len() {
                self@[i as int].len() == 0
            } else {
                true
            }),
    {
        self.len(i) == 0
    }
}

/// Cuts the sections out of the file. Fails with `SprSectionOverlap` when a
/// non-empty range runs backwards or past the end of the file, or two
/// non-empty ranges overlap.
pub fn extract_sections(data: &[u8], pairs: &[SprPair; 14]) -> (r: PitaResult<SprSections>)
    ensures
        sections_valid(pairs@, data@.len() as int) ==> (r matches Ok(s) && s@.len() == PAIR_COUNT
            && forall|i: int| 0 <= i < PAIR_COUNT ==> #[trigger] s@[i] == section_bytes(data@, pairs@[i])),
        !sections_valid(pairs@, data@.len() as int) ==> r == Err::<SprSections, PitaError>(
            PitaError::SprSectionOverlap,
        ),
{
    let file_size = data.len() as u64;
    let fs = Ghost(data@.len() as int);
    let mut i: usize = 0;
    while i < PAIR_COUNT
        invariant
            0 <= i <= PAIR_COUNT,
            file_size == fs@,
            fs@ == data@.len(),
            forall|k: int| 0 <= k < i ==> pair_in_file(#[trigger] pairs@[k], fs@),
        decreases PAIR_COUNT - i,
    {
        let pair = pairs[i];
        if !pair.is_empty() {
            if pair.start > file_size || pair.end > file_size {
                return Err(PitaError::SprSectionOverlap);
            }
            if pair.start >= pair.end {
                return Err(PitaError::SprSectionOverlap);
            }
        }
        i = i + 1;
    }
    let mut i: usize = 0;
    while i < PAIR_COUNT
        invariant
            0 <= i <= PAIR_COUNT,
            forall|k: int| 0 <= k < PAIR_COUNT ==> pair_in_file(#[trigger] pairs@[k], fs@),
            forall|a: int, b: int|
                0 <= a < i && a < b < PAIR_COUNT ==> !pairs_overlap(#[trigger] pairs@[a], #[trigger] pairs@[b]),
        decreases PAIR_COUNT - i,
    {
        let mut j: usize = i + 1;
        while j < PAIR_COUNT
            invariant
                0 <= i < PAIR_COUNT,
                i + 1 <= j <= PAIR_COUNT,
                forall|k: int| 0 <= k < PAIR_COUNT ==> pair_in_file(#[trigger] pairs@[k], fs@),
                forall|a: int, b: int|
                    0 <= a < i && a < b < PAIR_COUNT ==> !pairs_overlap(#[trigger] pairs@[a], #[trigger] pairs@[b]),
                forall|b: int| i < b < j ==> !pairs_overlap(pairs@[i as int], #[trigger] pairs@[b]),
            decreases PAIR_COUNT - j,
        {
            let pi = pairs[i];
            let pj = pairs[j];
            if !(pi.is_empty() || pj.is_empty()) {
                if pi.start < pj.end && pj.start < pi.end {
                    assert(pairs_overlap(pairs@[i as int], pairs@[j as int]));
                    return Err(PitaError::SprSectionOverlap);
                }
            }
            j = j + 1;
        }
        i = i + 1;
    }
    let dlen = data.len();
    let mut blobs: Vec<Vec<u8>> = Vec::with_capacity(PAIR_COUNT);
    let mut i: usize = 0;
    while i < PAIR_COUNT
        invariant
            0 <= i <= PAIR_COUNT,
            fs@ == data@.len(),
            dlen == data@.len(),
            sections_valid(pairs@, fs@),
            blobs@.len() == i,
            forall|k: int| 0 <= k < i ==> (#[trigger] blobs@[k])@ == section_bytes(data@, pairs@[k]),
        decreases PAIR_COUNT - i,
    {
        let pair = pairs[i];
        assert(pair == pairs@[i as int]);
        if pair.is_empty() {
            let empty: Vec<u8> = Vec::new();
            assert(empty@ =~= section_bytes(data@, pairs@[i as int]));
            blobs.push(empty);
        } else {
            assert(pair_in_file(pairs@[i as int], fs@));
            let blob = slice_to_vec(slice_subrange(data, pair.start as usize, pair.end as usize));
            assert(blob@ == section_bytes(data@, pairs@[i as int]));
            blobs.push(blob);
        }
        i = i + 1;
    }
    let s = SprSections { blobs };
    assert(s@.len() == PAIR_COUNT);
    Ok(s)
}

/// The file offsets that a section range covers.
pub open spec fn section_range(p: SprPair) -> Set<int> {
    if p.start == p.end {
        Set::empty()
    } else {
        set_int_range(p.start as int, p.end as int)
    }
}

/// The file offsets that the first `n` sections cover.
pub open spec fn covered(pairs: Seq<SprPair>, n: int) -> Set<int>
    decreases n,
{
    if n <= 0 {
        Set::empty()
    } else {
        covered(pairs, n - 1) + section_range(pairs[n - 1])
    }
}

/// The total length of the first `n` sections cut out of `data`.
pub open spec fn sections_total(data: Seq<u8>, pairs: Seq<SprPair>, n: int) -> int
    decreases n,
{
    if n <= 0 {
        0
    } else {
        sections_total(data, pairs, n - 1) + section_bytes(data, pairs[n - 1]).len()
    }
}

proof fn lemma_covered_disjoint(pairs: Seq<SprPair>, file_size: int, m: int, j: int)
    requires
        sections_valid(pairs, file_size),
        0 <= m <= j < PAIR_COUNT,
    ensures
        covered(pairs, m).disjoint(section_range(pairs[j])),
    decreases m,
{
    if m > 0 {
        lemma_covered_disjoint(pairs, file_size, m - 1, j);
        assert(!pairs_overlap(pairs[m - 1], pairs[j]));
    }
}

proof fn lemma_covered_len(data: Seq<u8>, pairs: Seq<SprPair>, n: int)
    requires
        sections_valid(pairs, data.len() as int),
        0 <= n <= PAIR_COUNT,
    ensures
        covered(pairs, n).finite(),
        covered(pairs, n).len() == sections_total(data, pairs, n),
        covered(pairs, n).subset_of(set_int_range(0, data.len() as int)),
    decreases n,
{
    if n > 0 {
        lemma_covered_len(data, pairs, n - 1);
        let p = pairs[n - 1];
        assert(pair_in_file(p, data.len() as int));
        if p.start != p.end {
            lemma_int_range(p.start as int, p.end as int);
        } else {
            assert(section_range(p).len() == 0);
        }
        lemma_covered_disjoint(pairs, data.len() as int, n - 1, n - 1);
        lemma_set_disjoint_lens(covered(pairs, n - 1), section_range(p));
    }
}

/// The sections of a valid table never take up more bytes than the file
/// holds: they lie inside it and do not overlap.
pub proof fn lemma_sections_fit_in_file(data: Seq<u8>, pairs: Seq<SprPair>)
    requires
        sections_valid(pairs, data.len() as int),
    ensures
        sections_total(data, pairs, PAIR_COUNT as int) <= data.len(),
{
    lemma_covered_len(data, pairs, PAIR_COUNT as int);
    lemma_int_range(0, data.len() as int);
    lemma_len_subset(covered(pairs, PAIR_COUNT as int), set_int_range(0, data.len() as int));
}

} // verus!
