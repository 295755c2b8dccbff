use crate::tools::{
    decode_outcome, is_encoding_rs, Charset,
    bitmap_of, build_table, in_ranges, int_bitmap, int_pair, lemma_bitmap_entry, lookup_pair,
    pairs_lookup, pairs_valid_from, pairs_windowed,
};
use vstd::prelude::*;

verus! {

/// Assigned trailing-byte ranges of EUC-KR (KS X 1001) for one lead byte.
pub open spec fn kr_row(lead: u8) -> Seq<(u8, u8)> {
    if lead == 0xA1 || lead == 0xA3 || lead == 0xA9 || (0xB0 <= lead <= 0xFD && lead != 0xC9) {
        seq![(0xA1u8, 0xFEu8)]
    } else if lead == 0xA2 {
        seq![(0xA1u8, 0xE7u8)]
    } else if lead == 0xA4 {
        seq![(0xA1u8, 0xD3u8), (0xD5u8, 0xFEu8)]
    } else if lead == 0xA5 {
        seq![(0xA1u8, 0xAAu8), (0xB0u8, 0xB9u8), (0xC1u8, 0xD8u8), (0xE1u8, 0xF8u8)]
    } else if lead == 0xA6 {
        seq![(0xA1u8, 0xE4u8)]
    } else if lead == 0xA7 {
        seq![(0xA1u8, 0xEFu8)]
    } else if lead == 0xA8 {
        seq![(0xA1u8, 0xA4u8), (0xA6u8, 0xA6u8), (0xA8u8, 0xAFu8), (0xB1u8, 0xFEu8)]
    } else if lead == 0xAA {
        seq![(0xA1u8, 0xF3u8)]
    } else if lead == 0xAB {
        seq![(0xA1u8, 0xF6u8)]
    } else if lead == 0xAC {
        seq![(0xA1u8, 0xC1u8), (0xD1u8, 0xF1u8)]
    } else {
        seq![]
    }
}

/// The EUC-KR range table, row `k` for lead byte `0x80 + k`.
pub open spec fn kr_rows() -> Seq<Seq<(u8, u8)>> {
    Seq::new(128, |k: int| kr_row((k + 0x80) as u8))
}

/// The EUC-KR validity bitmap.
pub open spec fn kr_bitmap() -> Seq<bool> {
    bitmap_of(kr_rows())
}

/// `(lead, trail)` is an assigned EUC-KR code point.
pub open spec fn kr_pair(lead: u8, trail: u8) -> bool {
    in_ranges(kr_row(lead), trail)
}

/// The buffer is well-formed EUC-KR.
pub open spec fn kr_valid(s: Seq<u8>) -> bool {
    pairs_valid_from(s, 0, |lead: u8, trail: u8| kr_pair(lead, trail))
}

/// Lead bytes of EUC-KR whose rows are entirely unassigned.
pub open spec fn kr_empty_row(lead: u8) -> bool {
    0xAD <= lead <= 0xAF || lead == 0xC9 || lead == 0xFE
}

/// Unassigned pairs inside the EUC-KR lead and trail ranges.
pub open spec fn kr_hole(lead: u8, trail: u8) -> bool {
    (lead == 0xA2 && 0xE8 <= trail <= 0xFE)
    || (lead == 0xA4 && trail == 0xD4)
    || (lead == 0xA5 && (0xAB <= trail <= 0xAF || 0xBA <= trail <= 0xC0 || 0xD9 <= trail <= 0xE0
        || 0xF9 <= trail <= 0xFE))
    || (lead == 0xA6 && 0xE5 <= trail <= 0xFE)
    || (lead == 0xA7 && 0xF0 <= trail <= 0xFE)
    || (lead == 0xA8 && (trail == 0xA5 || trail == 0xA7 || trail == 0xB0))
    || (lead == 0xAA && 0xF4 <= trail <= 0xFE)
    || (lead == 0xAB && 0xF7 <= trail <= 0xFE)
    || (lead == 0xAC && (0xC2 <= trail <= 0xD0 || 0xF2 <= trail <= 0xFE))
}

/// The range table agrees with the lead ranges, trail range and holes.
pub proof fn lemma_kr_pair(lead: u8, trail: u8)
    ensures
        kr_pair(lead, trail) == (0xA1 <= lead <= 0xFE && !kr_empty_row(lead) && 0xA1 <= trail
            <= 0xFE && !kr_hole(lead, trail)),
{
    reveal_with_fuel(in_ranges, 5);
}

fn kr_row_ranges(lead: u8) -> (r: &'static [(u8, u8)])
    ensures
        r@ == kr_row(lead),
{
    if lead == 0xA1 || lead == 0xA3 || lead == 0xA9 || (0xB0 <= lead && lead <= 0xFD && lead
        != 0xC9) {
        &[(0xA1, 0xFE)]
    } else if lead == 0xA2 {
        &[(0xA1, 0xE7)]
    } else if lead == 0xA4 {
        &[(0xA1, 0xD3), (0xD5, 0xFE)]
    } else if lead == 0xA5 {
        &[(0xA1, 0xAA), (0xB0, 0xB9), (0xC1, 0xD8), (0xE1, 0xF8)]
    } else if lead == 0xA6 {
        &[(0xA1, 0xE4)]
    } else if lead == 0xA7 {
        &[(0xA1, 0xEF)]
    } else if lead == 0xA8 {
        &[(0xA1, 0xA4), (0xA6, 0xA6), (0xA8, 0xAF), (0xB1, 0xFE)]
    } else if lead == 0xAA {
        &[(0xA1, 0xF3)]
    } else if lead == 0xAB {
        &[(0xA1, 0xF6)]
    } else if lead == 0xAC {
        &[(0xA1, 0xC1), (0xD1, 0xF1)]
    } else {
        &[]
    }
}

/// The EUC-KR range table, one row of assigned trailing-byte ranges per lead
/// byte 0x80..=0xFF.
fn kr_ranges() -> (rows: [&'static [(u8, u8)]; 128])
    ensures
        rows@.map_values(|r: &[(u8, u8)]| r@) == kr_rows(),
{
    let mut rows: [&'static [(u8, u8)]; 128] = [&[]; 128];
    let mut k: usize = 0;
    while k < 128
        invariant
            k <= 128,
            forall|m: int| 0 <= m < k ==> (#[trigger] rows@[m])@ == kr_row((m + 0x80) as u8),
        decreases 128 - k,
    {
        rows[k] = kr_row_ranges((k + 0x80) as u8);
        k += 1;
    }
    assert(rows@.map_values(|r: &[(u8, u8)]| r@) =~= kr_rows());
    rows
}

/// Builds the EUC-KR validity bitmap from its range table.
pub fn build_kr_table() -> (table: [bool; 32768])
    ensures
        table@ == kr_bitmap(),
{
    build_table(&kr_ranges())
}

fn is_kr_hole(lead: u8, trail: u8) -> (r: bool)
    ensures
        r == kr_hole(lead, trail),
{
    match lead {
        0xA2 => 0xE8 <= trail && trail <= 0xFE,
        0xA4 => trail == 0xD4,
        0xA5 => (0xAB <= trail && trail <= 0xAF) || (0xBA <= trail && trail <= 0xC0) || (0xD9
            <= trail && trail <= 0xE0) || (0xF9 <= trail && trail <= 0xFE),
        0xA6 => 0xE5 <= trail && trail <= 0xFE,
        0xA7 => 0xF0 <= trail && trail <= 0xFE,
        0xA8 => trail == 0xA5 || trail == 0xA7 || trail == 0xB0,
        0xAA => 0xF4 <= trail && trail <= 0xFE,
        0xAB => 0xF7 <= trail && trail <= 0xFE,
        0xAC => (0xC2 <= trail && trail <= 0xD0) || (0xF2 <= trail && trail <= 0xFE),
        _ => false,
    }
}

/// Byte-range scan: the buffer is well-formed EUC-KR.
pub fn is_kr_range(data: &[u8]) -> (r: bool)
    ensures
        r == kr_valid(data@),
{
    let ghost pair = |lead: u8, trail: u8| kr_pair(lead, trail);
    let mut i: usize = 0;
    while i < data.len()
        invariant
            i <= data@.len(),
            kr_valid(data@) == pairs_valid_from(data@, i as int, pair),
            pair == (|lead: u8, trail: u8| kr_pair(lead, trail)),
        decreases data@.len() - i,
    {
        let lead = data[i];
        if lead <= 0x7F {
            i += 1;
        } else if 0xA1 <= lead && lead <= 0xFE {
            if i + 1 >= data.len() {
                return false;
            }
            let trail = data[i + 1];
            proof {
                lemma_kr_pair(lead, trail);
            }
            if trail < 0xA1 || trail > 0xFE {
                return false;
            }
            if (0xAD <= lead && lead <= 0xAF) || lead == 0xC9 || lead == 0xFE {
                return false;
            }
            if is_kr_hole(lead, trail) {
                return false;
            }
            i += 2;
        } else {
            proof {
                if i + 1 < data@.len() {
                    lemma_kr_pair(lead, data@[i + 1]);
                }
            }
            return false;
        }
    }
    true
}

/// Bitmap lookup: the buffer is well-formed for the pairs that `table` accepts.
pub fn is_kr_lookup(data: &[u8], table: &[bool; 32768]) -> (r: bool)
    ensures
        r == pairs_valid_from(data@, 0, lookup_pair(table@)),
{
    pairs_lookup(data, table)
}

/// Windowed bulk validation against the integer form of the bitmap.
pub fn is_kr_simd(data: &[u8], table: &[i32; 32768]) -> (r: bool)
    ensures
        r == pairs_valid_from(data@, 0, int_pair(table@)),
{
    pairs_windowed(data, table)
}

/// The three EUC-KR strategies agree: on every buffer, the bitmap lookup
/// against the built bitmap and the windowed validator against its integer
/// form accept exactly the buffers that the range scan accepts.
pub proof fn lemma_kr_strategies_agree(data: Seq<u8>, table: Seq<bool>, ints: Seq<i32>)
    requires
        table == kr_bitmap(),
        ints == int_bitmap(table),
    ensures
        pairs_valid_from(data, 0, lookup_pair(table)) == kr_valid(data),
        pairs_valid_from(data, 0, int_pair(ints)) == kr_valid(data),
{
    let pair = |lead: u8, trail: u8| kr_pair(lead, trail);
    assert forall|lead: u8, trail: u8|
        #[trigger] lookup_pair(table)(lead, trail) == pair(lead, trail) && int_pair(ints)(
            lead,
            trail,
        ) == pair(lead, trail) by {
        lemma_kr_pair(lead, trail);
        if lead >= 0x80 {
            lemma_bitmap_entry(kr_rows(), lead, trail);
        }
    }
    assert(lookup_pair(table) =~= pair);
    assert(int_pair(ints) =~= pair);
}

/// Verdict of the general decoding library.
pub fn is_kr_rs(data: &[u8]) -> (r: bool)
    requires
        data@.len() <= usize::MAX / 8,
    ensures
        r == (!decode_outcome(Charset::EucKr, data@).1 && decode_outcome(Charset::EucKr, data@).0.len()
            > 0),
{
    is_encoding_rs(data, Charset::EucKr)
}

} // verus!
