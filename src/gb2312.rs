use crate::tools::{
    decode_outcome, is_encoding_rs, Charset,
    build_table, in_ranges, int_bitmap, int_pair, lemma_bitmap_entry, lookup_pair, pair_index,
    pairs_lookup, pairs_valid_from, pairs_windowed, bitmap_of,
};
use vstd::prelude::*;

verus! {

/// Assigned trailing-byte ranges of GB2312 for one lead byte.
pub open spec fn gb2312_row(lead: u8) -> Seq<(u8, u8)> {
    if lead == 0xA1 || lead == 0xA3 || (0xB0 <= lead <= 0xF7 && lead != 0xD7) {
        seq![(0xA1u8, 0xFEu8)]
    } else if lead == 0xA2 {
        seq![(0xB1u8, 0xE2u8), (0xE5u8, 0xEEu8), (0xF1u8, 0xFCu8)]
    } else if lead == 0xA4 {
        seq![(0xA1u8, 0xF3u8)]
    } else if lead == 0xA5 {
        seq![(0xA1u8, 0xF6u8)]
    } else if lead == 0xA6 {
        seq![(0xA1u8, 0xB8u8), (0xC1u8, 0xD8u8)]
    } else if lead == 0xA7 {
        seq![(0xA1u8, 0xC1u8), (0xD1u8, 0xF1u8)]
    } else if lead == 0xA8 {
        seq![(0xA1u8, 0xBAu8), (0xC5u8, 0xE9u8)]
    } else if lead == 0xA9 {
        seq![(0xA4u8, 0xEFu8)]
    } else if lead == 0xD7 {
        seq![(0xA1u8, 0xF9u8)]
    } else {
        seq![]
    }
}

/// The GB2312 range table, row `k` for lead byte `0x80 + k`.
pub open spec fn gb2312_rows() -> Seq<Seq<(u8, u8)>> {
    Seq::new(128, |k: int| gb2312_row((k + 0x80) as u8))
}

/// The GB2312 validity bitmap.
pub open spec fn gb2312_bitmap() -> Seq<bool> {
    bitmap_of(gb2312_rows())
}

/// `(lead, trail)` is an assigned GB2312 code point.
pub open spec fn gb2312_pair(lead: u8, trail: u8) -> bool {
    in_ranges(gb2312_row(lead), trail)
}

/// The buffer is well-formed GB2312.
pub open spec fn gb2312_valid(s: Seq<u8>) -> bool {
    pairs_valid_from(s, 0, |lead: u8, trail: u8| gb2312_pair(lead, trail))
}

/// Unassigned pairs inside the GB2312 lead and trail ranges.
pub open spec fn gb2312_hole(lead: u8, trail: u8) -> bool {
    (lead == 0xA2 && (0xA1 <= trail <= 0xB0 || 0xE3 <= trail <= 0xE4 || 0xEF <= trail <= 0xF0
        || 0xFD <= trail <= 0xFE))
    || (lead == 0xA4 && 0xF4 <= trail <= 0xFE)
    || (lead == 0xA5 && 0xF7 <= trail <= 0xFE)
    || (lead == 0xA6 && (0xB9 <= trail <= 0xC0 || 0xD9 <= trail <= 0xFE))
    || (lead == 0xA7 && (0xC2 <= trail <= 0xD0 || 0xF2 <= trail <= 0xFE))
    || (lead == 0xA8 && (0xBB <= trail <= 0xC4 || 0xEA <= trail <= 0xFE))
    || (lead == 0xA9 && (0xA1 <= trail <= 0xA3 || 0xF0 <= trail <= 0xFE))
    || (lead == 0xD7 && 0xFA <= trail <= 0xFE)
}

/// The range table agrees with the lead ranges, trail range and holes.
pub proof fn lemma_gb2312_pair(lead: u8, trail: u8)
    ensures
        gb2312_pair(lead, trail) == (0xA1 <= lead <= 0xF7 && !(0xAA <= lead <= 0xAF) && 0xA1
            <= trail <= 0xFE && !gb2312_hole(lead, trail)),
{
    reveal_with_fuel(in_ranges, 4);
}

fn gb2312_row_ranges(lead: u8) -> (r: &'static [(u8, u8)])
    ensures
        r@ == gb2312_row(lead),
{
    if lead == 0xA1 || lead == 0xA3 || (0xB0 <= lead && lead <= 0xF7 && lead != 0xD7) {
        &[(0xA1, 0xFE)]
    } else if lead == 0xA2 {
        &[(0xB1, 0xE2), (0xE5, 0xEE), (0xF1, 0xFC)]
    } else if lead == 0xA4 {
        &[(0xA1, 0xF3)]
    } else if lead == 0xA5 {
        &[(0xA1, 0xF6)]
    } else if lead == 0xA6 {
        &[(0xA1, 0xB8), (0xC1, 0xD8)]
    } else if lead == 0xA7 {
        &[(0xA1, 0xC1), (0xD1, 0xF1)]
    } else if lead == 0xA8 {
        &[(0xA1, 0xBA), (0xC5, 0xE9)]
    } else if lead == 0xA9 {
        &[(0xA4, 0xEF)]
    } else if lead == 0xD7 {
        &[(0xA1, 0xF9)]
    } else {
        &[]
    }
}

/// The GB2312 range table, one row of assigned trailing-byte ranges per lead
/// byte 0x80..=0xFF.
fn gb2312_ranges() -> (rows: [&'static [(u8, u8)]; 128])
    ensures
        rows@.map_values(|r: &[(u8, u8)]| r@) == gb2312_rows(),
{
    let mut rows: [&'static [(u8, u8)]; 128] = [&[]; 128];
    let mut k: usize = 0;
    while k < 128
        invariant
            k <= 128,
            forall|m: int| 0 <= m < k ==> (#[trigger] rows@[m])@ == gb2312_row((m + 0x80) as u8),
        decreases 128 - k,
    {
        rows[k] = gb2312_row_ranges((k + 0x80) as u8);
        k += 1;
    }
    assert(rows@.map_values(|r: &[(u8, u8)]| r@) =~= gb2312_rows());
    rows
}

/// Builds the GB2312 validity bitmap from its range table.
pub fn build_gb2312_table() -> (table: [bool; 32768])
    ensures
        table@ == gb2312_bitmap(),
{
    build_table(&gb2312_ranges())
}

/// Byte-range scan: the buffer is well-formed GB2312.
pub fn is_gb2312_range(data: &[u8]) -> (r: bool)
    ensures
        r == gb2312_valid(data@),
{
    let ghost pair = |lead: u8, trail: u8| gb2312_pair(lead, trail);
    let mut i: usize = 0;
    while i < data.len()
        invariant
            i <= data@.len(),
            gb2312_valid(data@) == pairs_valid_from(data@, i as int, pair),
            pair == (|lead: u8, trail: u8| gb2312_pair(lead, trail)),
        decreases data@.len() - i,
    {
        let lead = data[i];
        if lead <= 0x7F {
            i += 1;
        } else if lead <= 0xA0 || (0xAA <= lead && lead <= 0xAF) || lead >= 0xF8 {
            proof {
                if i + 1 < data@.len() {
                    lemma_gb2312_pair(lead, data@[i + 1]);
                }
            }
            return false;
        } else {
            if i + 1 >= data.len() {
                return false;
            }
            let trail = data[i + 1];
            proof {
                lemma_gb2312_pair(lead, trail);
            }
            if trail < 0xA1 || trail > 0xFE {
                return false;
            }
            if is_gb2312_hole(lead, trail) {
                return false;
            }
            i += 2;
        }
    }
    true
}

fn is_gb2312_hole(lead: u8, trail: u8) -> (r: bool)
    ensures
        r == gb2312_hole(lead, trail),
{
    match lead {
        0xA2 => (0xA1 <= trail && trail <= 0xB0) || (0xE3 <= trail && trail <= 0xE4) || (0xEF
            <= trail && trail <= 0xF0) || (0xFD <= trail && trail <= 0xFE),
        0xA4 => 0xF4 <= trail && trail <= 0xFE,
        0xA5 => 0xF7 <= trail && trail <= 0xFE,
        0xA6 => (0xB9 <= trail && trail <= 0xC0) || (0xD9 <= trail && trail <= 0xFE),
        0xA7 => (0xC2 <= trail && trail <= 0xD0) || (0xF2 <= trail && trail <= 0xFE),
        0xA8 => (0xBB <= trail && trail <= 0xC4) || (0xEA <= trail && trail <= 0xFE),
        0xA9 => (0xA1 <= trail && trail <= 0xA3) || (0xF0 <= trail && trail <= 0xFE),
        0xD7 => 0xFA <= trail && trail <= 0xFE,
        _ => false,
    }
}

/// Bitmap lookup: the buffer is well-formed for the pairs that `table` accepts.
pub fn is_gb2312_lookup(data: &[u8], table: &[bool; 32768]) -> (r: bool)
    ensures
        r == pairs_valid_from(data@, 0, lookup_pair(table@)),
{
    pairs_lookup(data, table)
}

/// Windowed bulk validation against the integer form of the bitmap.
pub fn is_gb2312_simd(data: &[u8], table: &[i32; 32768]) -> (r: bool)
    ensures
        r == pairs_valid_from(data@, 0, int_pair(table@)),
{
    pairs_windowed(data, table)
}

/// The three GB2312 strategies agree: on every buffer, the bitmap lookup
/// against the built bitmap and the windowed validator against its integer
/// form accept exactly the buffers that the range scan accepts.
pub proof fn lemma_gb2312_strategies_agree(data: Seq<u8>, table: Seq<bool>, ints: Seq<i32>)
    requires
        table == gb2312_bitmap(),
        ints == int_bitmap(table),
    ensures
        pairs_valid_from(data, 0, lookup_pair(table)) == gb2312_valid(data),
        pairs_valid_from(data, 0, int_pair(ints)) == gb2312_valid(data),
{
    let pair = |lead: u8, trail: u8| gb2312_pair(lead, trail);
    assert forall|lead: u8, trail: u8|
        #[trigger] lookup_pair(table)(lead, trail) == pair(lead, trail) && int_pair(ints)(
            lead,
            trail,
        ) == pair(lead, trail) by {
        lemma_gb2312_pair(lead, trail);
        if lead >= 0x80 {
            lemma_bitmap_entry(gb2312_rows(), lead, trail);
        }
    }
    assert(lookup_pair(table) =~= pair);
    assert(int_pair(ints) =~= pair);
}

/// Verdict of the general decoding library. GBK, the superset of GB2312 that the library offers, stands in for it.
pub fn is_gb2312_rs(data: &[u8]) -> (r: bool)
    requires
        data@.len() <= usize::MAX / 8,
    ensures
        r == (!decode_outcome(Charset::Gbk, data@).1 && decode_outcome(Charset::Gbk, data@).0.len()
            > 0),
{
    is_encoding_rs(data, Charset::Gbk)
}

} // verus!
