use crate::tools::{
    decode_outcome, is_encoding_rs, Charset,
    bitmap_of, build_table, classify_window, in_ranges, int_bitmap, lemma_bitmap_entry,
    lemma_pair_index, pair_index, window_all, Window, WINDOW,
};
use vstd::prelude::*;

verus! {

/// Assigned trailing-byte ranges of EUC-JP for one two-byte lead byte: 0x8E
/// for half-width katakana, 0xA1..=0xFE for JIS X 0208.
pub open spec fn jp_row(lead: u8) -> Seq<(u8, u8)> {
    if lead == 0xA1 || (0xB0 <= lead <= 0xF3 && lead != 0xCF) {
        seq![(0xA1u8, 0xFEu8)]
    } else if lead == 0x8E {
        seq![(0xA1u8, 0xDFu8)]
    } else if lead == 0xA2 {
        seq![
            (0xA1u8, 0xAEu8),
            (0xBAu8, 0xC1u8),
            (0xCAu8, 0xD0u8),
            (0xDCu8, 0xEAu8),
            (0xF2u8, 0xF9u8),
            (0xFEu8, 0xFEu8),
        ]
    } else if lead == 0xA3 {
        seq![(0xB0u8, 0xB9u8), (0xC1u8, 0xDAu8), (0xE1u8, 0xFAu8)]
    } else if lead == 0xA4 {
        seq![(0xA1u8, 0xF3u8)]
    } else if lead == 0xA5 {
        seq![(0xA1u8, 0xF6u8)]
    } else if lead == 0xA6 {
        seq![(0xA1u8, 0xB8u8), (0xC1u8, 0xD8u8)]
    } else if lead == 0xA7 {
        seq![(0xA1u8, 0xC1u8), (0xD1u8, 0xF1u8)]
    } else if lead == 0xA8 {
        seq![(0xA1u8, 0xC0u8)]
    } else if lead == 0xCF {
        seq![(0xA1u8, 0xD3u8)]
    } else if lead == 0xF4 {
        seq![(0xA1u8, 0xA6u8)]
    } else {
        seq![]
    }
}

/// The EUC-JP range table, row `k` for lead byte `0x80 + k`.
pub open spec fn jp_rows() -> Seq<Seq<(u8, u8)>> {
    Seq::new(128, |k: int| jp_row((k + 0x80) as u8))
}

/// The EUC-JP validity bitmap of two-byte units.
pub open spec fn jp_bitmap() -> Seq<bool> {
    bitmap_of(jp_rows())
}

/// `(lead, trail)` is an assigned two-byte EUC-JP code point.
pub open spec fn jp_pair(lead: u8, trail: u8) -> bool {
    in_ranges(jp_row(lead), trail)
}

/// Unassigned JIS X 0208 pairs inside the lead and trail ranges.
pub open spec fn jis0208_hole(lead: u8, trail: u8) -> bool {
    (lead == 0xA2 && (0xAF <= trail <= 0xB9 || 0xC2 <= trail <= 0xC9 || 0xD1 <= trail <= 0xDB
        || 0xEB <= trail <= 0xF1 || 0xFA <= trail <= 0xFD))
    || (lead == 0xA3 && (0xA1 <= trail <= 0xAF || 0xBA <= trail <= 0xC0 || 0xDB <= trail <= 0xE0
        || 0xFB <= trail <= 0xFE))
    || (lead == 0xA4 && 0xF4 <= trail <= 0xFE)
    || (lead == 0xA5 && 0xF7 <= trail <= 0xFE)
    || (lead == 0xA6 && (0xB9 <= trail <= 0xC0 || 0xD9 <= trail <= 0xFE))
    || (lead == 0xA7 && (0xC2 <= trail <= 0xD0 || 0xF2 <= trail <= 0xFE))
    || (lead == 0xA8 && 0xC1 <= trail <= 0xFE)
    || (lead == 0xCF && 0xD4 <= trail <= 0xFE)
    || (lead == 0xF4 && 0xA7 <= trail <= 0xFE)
}

/// The range table agrees with the katakana range and with the JIS X 0208
/// lead ranges, trail range and holes.
pub proof fn lemma_jp_pair(lead: u8, trail: u8)
    ensures
        jp_pair(lead, trail) == ((lead == 0x8E && 0xA1 <= trail <= 0xDF) || (0xA1 <= lead <= 0xFE
            && !(0xA9 <= lead <= 0xAF) && !(0xF5 <= lead <= 0xFE) && 0xA1 <= trail <= 0xFE
            && !jis0208_hole(lead, trail))),
{
    reveal_with_fuel(in_ranges, 7);
}

/// Rows of JIS X 0212 that are entirely unassigned.
pub open spec fn jis0212_empty_row(second: u8) -> bool {
    second == 0xA1 || 0xA3 <= second <= 0xA5 || second == 0xA8 || 0xAC <= second <= 0xAF || 0xEE
        <= second <= 0xFE
}

/// Unassigned JIS X 0212 pairs inside the assigned rows.
pub open spec fn jis0212_hole(second: u8, third: u8) -> bool {
    (second == 0xA2 && (0xA1 <= third <= 0xAE || 0xBA <= third <= 0xC1 || 0xC5 <= third <= 0xEA
        || 0xF2 <= third <= 0xFE))
    || (second == 0xA6 && (0xA1 <= third <= 0xE0 || third == 0xE6 || third == 0xE8 || third
        == 0xEB || 0xED <= third <= 0xF0 || 0xFD <= third <= 0xFE))
    || (second == 0xA7 && (0xA1 <= third <= 0xC1 || 0xCF <= third <= 0xF1))
    || (second == 0xA9 && (third == 0xA3 || third == 0xA5 || third == 0xA7 || third == 0xAA
        || third == 0xAE || 0xB1 <= third <= 0xC0 || 0xD1 <= third <= 0xFE))
    || (second == 0xAA && (third == 0xB9 || 0xF8 <= third <= 0xFE))
    || (second == 0xAB && (third == 0xBC || third == 0xC4 || 0xF8 <= third <= 0xFE))
    || (second == 0xED && 0xE5 <= third <= 0xFE)
}

/// `(0x8F, second, third)` is an assigned JIS X 0212 code point.
pub open spec fn jis0212_ok(second: u8, third: u8) -> bool {
    0xA1 <= second <= 0xFE && 0xA1 <= third <= 0xFE && !jis0212_empty_row(second)
        && !jis0212_hole(second, third)
}

/// Validity of `s` from position `i` on, for EUC-JP: ASCII bytes, three-byte
/// JIS X 0212 units led by 0x8F, and two-byte units accepted by `pair`.
pub open spec fn jp_valid_from(s: Seq<u8>, i: int, pair: spec_fn(u8, u8) -> bool) -> bool
    decreases s.len() - i,
{
    if i >= s.len() {
        true
    } else if s[i] <= 0x7F {
        jp_valid_from(s, i + 1, pair)
    } else if s[i] == 0x8F {
        i + 2 < s.len() && jis0212_ok(s[i + 1], s[i + 2]) && jp_valid_from(s, i + 3, pair)
    } else {
        i + 1 < s.len() && pair(s[i], s[i + 1]) && jp_valid_from(s, i + 2, pair)
    }
}

/// The buffer is well-formed EUC-JP.
pub open spec fn jp_valid(s: Seq<u8>) -> bool {
    jp_valid_from(s, 0, |lead: u8, trail: u8| jp_pair(lead, trail))
}

/// Two-byte units that a boolean bitmap accepts, for lead bytes 0x8E and
/// 0xA1..=0xFE.
pub open spec fn jp_lookup_pair(table: Seq<bool>) -> spec_fn(u8, u8) -> bool {
    |lead: u8, trail: u8| (lead == 0x8E || 0xA1 <= lead <= 0xFE) && table[pair_index(lead, trail)]
}

/// Two-byte units that an integer bitmap accepts, for lead bytes 0x8E and
/// 0xA1..=0xFE.
pub open spec fn jp_int_pair(table: Seq<i32>) -> spec_fn(u8, u8) -> bool {
    |lead: u8, trail: u8|
        (lead == 0x8E || 0xA1 <= lead <= 0xFE) && table[pair_index(lead, trail)] == 1
}

fn jp_row_ranges(lead: u8) -> (r: &'static [(u8, u8)])
    ensures
        r@ == jp_row(lead),
{
    if lead == 0xA1 || (0xB0 <= lead && lead <= 0xF3 && lead != 0xCF) {
        &[(0xA1, 0xFE)]
    } else if lead == 0x8E {
        &[(0xA1, 0xDF)]
    } else if lead == 0xA2 {
        &[(0xA1, 0xAE), (0xBA, 0xC1), (0xCA, 0xD0), (0xDC, 0xEA), (0xF2, 0xF9), (0xFE, 0xFE)]
    } else if lead == 0xA3 {
        &[(0xB0, 0xB9), (0xC1, 0xDA), (0xE1, 0xFA)]
    } else if lead == 0xA4 {
        &[(0xA1, 0xF3)]
    } else if lead == 0xA5 {
        &[(0xA1, 0xF6)]
    } else if lead == 0xA6 {
        &[(0xA1, 0xB8), (0xC1, 0xD8)]
    } else if lead == 0xA7 {
        &[(0xA1, 0xC1), (0xD1, 0xF1)]
    } else if lead == 0xA8 {
        &[(0xA1, 0xC0)]
    } else if lead == 0xCF {
        &[(0xA1, 0xD3)]
    } else if lead == 0xF4 {
        &[(0xA1, 0xA6)]
    } else {
        &[]
    }
}

/// The EUC-JP range table, one row of assigned trailing-byte ranges per lead
/// byte 0x80..=0xFF.
fn jp_ranges() -> (rows: [&'static [(u8, u8)]; 128])
    ensures
        rows@.map_values(|r: &[(u8, u8)]| r@) == jp_rows(),
{
    let mut rows: [&'static [(u8, u8)]; 128] = [&[]; 128];
    let mut k: usize = 0;
    while k < 128
        invariant
            k <= 128,
            forall|m: int| 0 <= m < k ==> (#[trigger] rows@[m])@ == jp_row((m + 0x80) as u8),
        decreases 128 - k,
    {
        rows[k] = jp_row_ranges((k + 0x80) as u8);
        k += 1;
    }
    assert(rows@.map_values(|r: &[(u8, u8)]| r@) =~= jp_rows());
    rows
}

/// Builds the EUC-JP validity bitmap of two-byte units from its range table.
pub fn build_jp_table() -> (table: [bool; 32768])
    ensures
        table@ == jp_bitmap(),
{
    build_table(&jp_ranges())
}

fn is_jis0208_hole(lead: u8, trail: u8) -> (r: bool)
    ensures
        r == jis0208_hole(lead, trail),
{
    match lead {
        0xA2 => (0xAF <= trail && trail <= 0xB9) || (0xC2 <= trail && trail <= 0xC9) || (0xD1
            <= trail && trail <= 0xDB) || (0xEB <= trail && trail <= 0xF1) || (0xFA <= trail
            && trail <= 0xFD),
        0xA3 => (0xA1 <= trail && trail <= 0xAF) || (0xBA <= trail && trail <= 0xC0) || (0xDB
            <= trail && trail <= 0xE0) || (0xFB <= trail && trail <= 0xFE),
        0xA4 => 0xF4 <= trail && trail <= 0xFE,
        0xA5 => 0xF7 <= trail && trail <= 0xFE,
        0xA6 => (0xB9 <= trail && trail <= 0xC0) || (0xD9 <= trail && trail <= 0xFE),
        0xA7 => (0xC2 <= trail && trail <= 0xD0) || (0xF2 <= trail && trail <= 0xFE),
        0xA8 => 0xC1 <= trail && trail <= 0xFE,
        0xCF => 0xD4 <= trail && trail <= 0xFE,
        0xF4 => 0xA7 <= trail && trail <= 0xFE,
        _ => false,
    }
}

/// The JIS X 0212 unit `(0x8F, second, third)` is assigned.
fn jis0212_valid(second: u8, third: u8) -> (r: bool)
    ensures
        r == jis0212_ok(second, third),
{
    if second < 0xA1 || second > 0xFE || third < 0xA1 || third > 0xFE {
        return false;
    }
    if second == 0xA1 || (0xA3 <= second && second <= 0xA5) || second == 0xA8 || (0xAC <= second
        && second <= 0xAF) || (0xEE <= second && second <= 0xFE) {
        return false;
    }
    match second {
        0xA2 => !((0xA1 <= third && third <= 0xAE) || (0xBA <= third && third <= 0xC1) || (0xC5
            <= third && third <= 0xEA) || (0xF2 <= third && third <= 0xFE)),
        0xA6 => !((0xA1 <= third && third <= 0xE0) || third == 0xE6 || third == 0xE8 || third
            == 0xEB || (0xED <= third && third <= 0xF0) || (0xFD <= third && third <= 0xFE)),
        0xA7 => !((0xA1 <= third && third <= 0xC1) || (0xCF <= third && third <= 0xF1)),
        0xA9 => !(third == 0xA3 || third == 0xA5 || third == 0xA7 || third == 0xAA || third
            == 0xAE || (0xB1 <= third && third <= 0xC0) || (0xD1 <= third && third <= 0xFE)),
        0xAA => !(third == 0xB9 || (0xF8 <= third && third <= 0xFE)),
        0xAB => !(third == 0xBC || third == 0xC4 || (0xF8 <= third && third <= 0xFE)),
        0xED => !(0xE5 <= third && third <= 0xFE),
        _ => true,
    }
}

/// Byte-range scan: the buffer is well-formed EUC-JP.
pub fn is_jp_range(data: &[u8]) -> (r: bool)
    ensures
        r == jp_valid(data@),
{
    let ghost pair = |lead: u8, trail: u8| jp_pair(lead, trail);
    let mut i: usize = 0;
    while i < data.len()
        invariant
            i <= data@.len(),
            jp_valid(data@) == jp_valid_from(data@, i as int, pair),
            pair == (|lead: u8, trail: u8| jp_pair(lead, trail)),
        decreases data@.len() - i,
    {
        let lead = data[i];
        if lead <= 0x7F {
            i += 1;
        } else if lead == 0x8E {
            if i + 1 >= data.len() {
                return false;
            }
            let trail = data[i + 1];
            proof {
                lemma_jp_pair(lead, trail);
            }
            if trail < 0xA1 || trail > 0xDF {
                return false;
            }
            i += 2;
        } else if lead == 0x8F {
            if data.len() - i <= 2 {
                return false;
            }
            if !jis0212_valid(data[i + 1], data[i + 2]) {
                return false;
            }
            i += 3;
        } else if 0xA1 <= lead && lead <= 0xFE {
            if i + 1 >= data.len() {
                return false;
            }
            let trail = data[i + 1];
            proof {
                lemma_jp_pair(lead, trail);
            }
            if trail < 0xA1 || trail > 0xFE {
                return false;
            }
            if (0xA9 <= lead && lead <= 0xAF) || (0xF5 <= lead && lead <= 0xFE) {
                return false;
            }
            if is_jis0208_hole(lead, trail) {
                return false;
            }
            i += 2;
        } else {
            proof {
                if i + 1 < data@.len() {
                    lemma_jp_pair(lead, data@[i + 1]);
                }
            }
            return false;
        }
    }
    true
}

/// Bitmap lookup: the buffer is well-formed EUC-JP for the two-byte units
/// that `table` accepts.
pub fn is_jp_lookup(data: &[u8], table: &[bool; 32768]) -> (r: bool)
    ensures
        r == jp_valid_from(data@, 0, jp_lookup_pair(table@)),
{
    let mut i: usize = 0;
    while i < data.len()
        invariant
            i <= data@.len(),
            jp_valid_from(data@, 0, jp_lookup_pair(table@)) == jp_valid_from(
                data@,
                i as int,
                jp_lookup_pair(table@),
            ),
        decreases data@.len() - i,
    {
        let lead = data[i];
        if lead <= 0x7F {
            i += 1;
        } else if lead == 0x8F {
            if data.len() - i <= 2 {
                return false;
            }
            if !jis0212_valid(data[i + 1], data[i + 2]) {
                return false;
            }
            i += 3;
        } else if lead == 0x8E || (0xA1 <= lead && lead <= 0xFE) {
            if i + 1 >= data.len() {
                return false;
            }
            let trail = data[i + 1];
            proof {
                lemma_pair_index(lead, trail);
            }
            if !table[(lead - 0x80) as usize * 256 + trail as usize] {
                return false;
            }
            i += 2;
        } else {
            return false;
        }
    }
    true
}

fn jp_int_pair_ok(table: &[i32; 32768], lead: u8, trail: u8) -> (r: bool)
    ensures
        r == jp_int_pair(table@)(lead, trail),
{
    if lead == 0x8E || (0xA1 <= lead && lead <= 0xFE) {
        proof {
            lemma_pair_index(lead, trail);
        }
        table[(lead - 0x80) as usize * 256 + trail as usize] == 1
    } else {
        false
    }
}

/// Appending bytes after a well-formed EUC-JP prefix leaves the walk at the
/// end of the prefix.
pub proof fn lemma_jp_concat(p: Seq<u8>, q: Seq<u8>, i: int, pair: spec_fn(u8, u8) -> bool)
    requires
        0 <= i <= p.len(),
        jp_valid_from(p, i, pair),
    ensures
        jp_valid_from(p + q, i, pair) == jp_valid_from(p + q, p.len() as int, pair),
    decreases p.len() - i,
{
    if i < p.len() {
        let s = p + q;
        assert(s[i] == p[i]);
        if p[i] <= 0x7F {
            lemma_jp_concat(p, q, i + 1, pair);
        } else if p[i] == 0x8F {
            assert(s[i + 1] == p[i + 1] && s[i + 2] == p[i + 2]);
            lemma_jp_concat(p, q, i + 3, pair);
        } else {
            assert(s[i + 1] == p[i + 1]);
            lemma_jp_concat(p, q, i + 2, pair);
        }
    }
}

/// Extending a well-formed EUC-JP prefix by one complete unit of `k` bytes
/// keeps it well-formed.
pub proof fn lemma_jp_prefix_grow(
    s: Seq<u8>,
    start: int,
    i: int,
    k: int,
    pair: spec_fn(u8, u8) -> bool,
)
    requires
        0 <= start <= i,
        i + k <= s.len(),
        jp_valid_from(s.subrange(0, i), start, pair),
        k == 1 ==> s[i] <= 0x7F,
        k == 2 ==> s[i] >= 0x80 && s[i] != 0x8F && pair(s[i], s[i + 1]),
        k == 3 ==> s[i] == 0x8F && jis0212_ok(s[i + 1], s[i + 2]),
        1 <= k <= 3,
    ensures
        jp_valid_from(s.subrange(0, i + k), start, pair),
{
    let p = s.subrange(0, i);
    let w = s.subrange(0, i + k);
    assert(p + s.subrange(i, i + k) =~= w);
    lemma_jp_concat(p, s.subrange(i, i + k), start, pair);
    assert(w[i] == s[i]);
    if k >= 2 {
        assert(w[i + 1] == s[i + 1]);
    }
    if k == 3 {
        assert(w[i + 2] == s[i + 2]);
    }
    assert(jp_valid_from(w, i + k, pair));
}

/// After a well-formed EUC-JP prefix, a unit that fails within the first
/// `end` bytes makes the buffer invalid whatever follows those bytes.
pub proof fn lemma_jp_fails(s: Seq<u8>, start: int, i: int, end: int, pair: spec_fn(u8, u8) -> bool)
    requires
        0 <= start <= i < end <= s.len(),
        jp_valid_from(s.subrange(0, i), start, pair),
        s[i] >= 0x80,
        (s[i] == 0x8F && i + 2 < end && !jis0212_ok(s[i + 1], s[i + 2])) || (s[i] != 0x8F && i + 1
            < end && !pair(s[i], s[i + 1])) || (s[i] != 0x8F && forall|b: u8|
            !#[trigger] pair(s[i], b)),
    ensures
        forall|t: Seq<u8>| !#[trigger] jp_valid_from(s.subrange(0, end) + t, start, pair),
        !jp_valid_from(s, start, pair),
{
    let p = s.subrange(0, i);
    assert forall|t: Seq<u8>| !#[trigger] jp_valid_from(s.subrange(0, end) + t, start, pair) by {
        let w = s.subrange(0, end) + t;
        assert(p + w.subrange(i, w.len() as int) =~= w);
        lemma_jp_concat(p, w.subrange(i, w.len() as int), start, pair);
        assert(w[i] == s[i]);
        if i + 1 < end {
            assert(w[i + 1] == s[i + 1]);
        }
        if i + 2 < end {
            assert(w[i + 2] == s[i + 2]);
        }
    }
    assert(s.subrange(0, end) + s.subrange(end, s.len() as int) =~= s);
}

/// Resynchronises the EUC-JP walk over `data[start..end]` against an integer
/// bitmap: -1 if a unit there is invalid, 0 if the units end exactly at
/// `end`, or `r > 0` if a unit starts at `end - r` and needs bytes after `end`.
fn jp_fallback(data: &[u8], start: usize, end: usize, table: &[i32; 32768]) -> (r: i32)
    requires
        start <= end <= data@.len(),
    ensures
        -1 <= r <= 2,
        r == -1 ==> !jp_valid_from(data@, start as int, jp_int_pair(table@)),
        r == -1 ==> forall|t: Seq<u8>|
            !#[trigger] jp_valid_from(
                data@.subrange(0, end as int) + t,
                start as int,
                jp_int_pair(table@),
            ),
        r >= 0 ==> start + r <= end && jp_valid_from(
            data@.subrange(0, end - r),
            start as int,
            jp_int_pair(table@),
        ) && jp_valid_from(data@, start as int, jp_int_pair(table@)) == jp_valid_from(
            data@,
            end - r,
            jp_int_pair(table@),
        ),
        r >= 1 ==> data@[end - r] >= 0x80,
        r == 1 ==> data@[end - 1] == 0x8E || data@[end - 1] == 0x8F || 0xA1 <= data@[end - 1]
            <= 0xFE,
        r == 2 ==> data@[end - 2] == 0x8F,
{
    let ghost pair = jp_int_pair(table@);
    let mut i: usize = start;
    while i < end
        invariant
            start <= i <= end,
            end <= data@.len(),
            pair == jp_int_pair(table@),
            jp_valid_from(data@.subrange(0, i as int), start as int, pair),
            jp_valid_from(data@, start as int, pair) == jp_valid_from(data@, i as int, pair),
        decreases end - i,
    {
        let lead = data[i];
        if lead <= 0x7F {
            proof {
                lemma_jp_prefix_grow(data@, start as int, i as int, 1, pair);
            }
            i += 1;
        } else if lead == 0x8F {
            if end - i <= 2 {
                return (end - i) as i32;
            }
            if !jis0212_valid(data[i + 1], data[i + 2]) {
                proof {
                    lemma_jp_fails(data@, start as int, i as int, end as int, pair);
                }
                return -1;
            }
            proof {
                lemma_jp_prefix_grow(data@, start as int, i as int, 3, pair);
            }
            i += 3;
        } else if lead == 0x8E || (0xA1 <= lead && lead <= 0xFE) {
            if end - i <= 1 {
                return 1;
            }
            if !jp_int_pair_ok(table, lead, data[i + 1]) {
                proof {
                    lemma_jp_fails(data@, start as int, i as int, end as int, pair);
                }
                return -1;
            }
            proof {
                lemma_jp_prefix_grow(data@, start as int, i as int, 2, pair);
            }
            i += 2;
        } else {
            proof {
                lemma_jp_fails(data@, start as int, i as int, end as int, pair);
            }
            return -1;
        }
    }
    0
}

/// A window of high bytes with no 0x8F byte is checked as eight two-byte
/// units.
fn jp_window_ok(data: &[u8], start: usize, table: &[i32; 32768]) -> (r: bool)
    requires
        start + WINDOW <= data.len(),
        window_all(data@, start as int, true),
        forall|k: int| start <= k < start + WINDOW ==> #[trigger] data@[k] != 0x8F,
    ensures
        r ==> jp_valid_from(data@, start as int, jp_int_pair(table@)) == jp_valid_from(
            data@,
            start + WINDOW,
            jp_int_pair(table@),
        ),
        !r ==> !jp_valid_from(data@, start as int, jp_int_pair(table@)),
{
    let mut k: usize = 0;
    while k < WINDOW
        invariant
            k <= WINDOW,
            k % 2 == 0,
            start + WINDOW <= data.len(),
            window_all(data@, start as int, true),
            forall|m: int| start <= m < start + WINDOW ==> #[trigger] data@[m] != 0x8F,
            jp_valid_from(data@, start as int, jp_int_pair(table@)) == jp_valid_from(
                data@,
                start + k,
                jp_int_pair(table@),
            ),
        decreases WINDOW - k,
    {
        assert(data@[start + k] >= 0x80 && data@[start + k] != 0x8F);
        if !jp_int_pair_ok(table, data[start + k], data[start + k + 1]) {
            return false;
        }
        k += 2;
    }
    true
}

/// The window of `WINDOW` bytes at `start` holds a 0x8F byte.
fn window_has_8f(data: &[u8], start: usize) -> (r: bool)
    requires
        start + WINDOW <= data.len(),
    ensures
        r == exists|k: int| start <= k < start + WINDOW && #[trigger] data@[k] == 0x8F,
{
    let mut k: usize = 0;
    while k < WINDOW
        invariant
            k <= WINDOW,
            start + WINDOW <= data.len(),
            forall|m: int| start <= m < start + k ==> #[trigger] data@[m] != 0x8F,
        decreases WINDOW - k,
    {
        if data[start + k] == 0x8F {
            return true;
        }
        k += 1;
    }
    false
}

/// A run of ASCII bytes is skipped by the EUC-JP walk.
pub proof fn lemma_ascii_run(s: Seq<u8>, start: int, n: int, pair: spec_fn(u8, u8) -> bool)
    requires
        0 <= start,
        0 <= n,
        start + n <= s.len(),
        forall|k: int| start <= k < start + n ==> #[trigger] s[k] < 0x80,
    ensures
        jp_valid_from(s, start, pair) == jp_valid_from(s, start + n, pair),
    decreases n,
{
    if n > 0 {
        lemma_ascii_run(s, start + 1, n - 1, pair);
    }
}

/// Windowed bulk validation against the integer form of the bitmap: an ASCII
/// window is skipped, a window of high bytes without 0x8F is checked as
/// eight two-byte units, and any other window, as well as the tail, goes
/// through the fallback.
pub fn is_jp_simd(data: &[u8], bitmap: &[i32; 32768]) -> (r: bool)
    ensures
        r == jp_valid_from(data@, 0, jp_int_pair(bitmap@)),
{
    let len = data.len();
    let mut i: usize = 0;
    while WINDOW <= len - i
        invariant
            i <= len == data@.len(),
            jp_valid_from(data@, 0, jp_int_pair(bitmap@)) == jp_valid_from(
                data@,
                i as int,
                jp_int_pair(bitmap@),
            ),
        decreases len - i,
    {
        match classify_window(data, i) {
            Window::Ascii => {
                proof {
                    lemma_ascii_run(data@, i as int, WINDOW as int, jp_int_pair(bitmap@));
                }
                i += WINDOW;
                continue;
            },
            Window::High => {
                if !window_has_8f(data, i) {
                    if !jp_window_ok(data, i, bitmap) {
                        return false;
                    }
                    i += WINDOW;
                    continue;
                }
            },
            Window::Mixed => {},
        }
        let back = jp_fallback(data, i, i + WINDOW, bitmap);
        if back == -1 {
            return false;
        }
        i = i + WINDOW - back as usize;
    }
    if i < len {
        jp_fallback(data, i, len, bitmap) == 0
    } else {
        true
    }
}

/// The three EUC-JP strategies agree: on every buffer, the bitmap lookup
/// against the built bitmap and the windowed validator against its integer
/// form accept exactly the buffers that the range scan accepts.
pub proof fn lemma_jp_strategies_agree(data: Seq<u8>, table: Seq<bool>, ints: Seq<i32>)
    requires
        table == jp_bitmap(),
        ints == int_bitmap(table),
    ensures
        jp_valid_from(data, 0, jp_lookup_pair(table)) == jp_valid(data),
        jp_valid_from(data, 0, jp_int_pair(ints)) == jp_valid(data),
{
    let pair = |lead: u8, trail: u8| jp_pair(lead, trail);
    assert forall|lead: u8, trail: u8|
        #[trigger] jp_lookup_pair(table)(lead, trail) == pair(lead, trail) && jp_int_pair(ints)(
            lead,
            trail,
        ) == pair(lead, trail) by {
        lemma_jp_pair(lead, trail);
        if lead >= 0x80 {
            lemma_bitmap_entry(jp_rows(), lead, trail);
        }
    }
    assert(jp_lookup_pair(table) =~= pair);
    assert(jp_int_pair(ints) =~= pair);
}

/// Verdict of the general decoding library.
pub fn is_jp_rs(data: &[u8]) -> (r: bool)
    requires
        data@.len() <= usize::MAX / 8,
    ensures
        r == (!decode_outcome(Charset::EucJp, data@).1 && decode_outcome(Charset::EucJp, data@).0.len()
            > 0),
{
    is_encoding_rs(data, Charset::EucJp)
}

} // verus!
