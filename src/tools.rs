use vstd::prelude::*;

verus! {

/// Number of entries of a validity bitmap: 128 lead bytes times 256 trailing bytes.
pub const TABLE_SIZE: usize = 32768;

/// Position of the pair `(lead, trail)` in a validity bitmap.
pub open spec fn pair_index(lead: u8, trail: u8) -> int {
    (lead - 0x80) * 256 + trail
}

/// Trailing byte that the bitmap entry at `i` stands for.
pub open spec fn trail_of(i: int) -> u8 {
    (i % 256) as u8
}

/// `t` lies in one of the inclusive ranges of `ranges`.
pub open spec fn in_ranges(ranges: Seq<(u8, u8)>, t: u8) -> bool
    decreases ranges.len(),
{
    if ranges.len() == 0 {
        false
    } else {
        in_ranges(ranges.drop_last(), t) || (ranges.last().0 <= t && t <= ranges.last().1)
    }
}

/// The bitmap that a range table describes.
pub open spec fn bitmap_of(rows: Seq<Seq<(u8, u8)>>) -> Seq<bool> {
    Seq::new(TABLE_SIZE as nat, |i: int| in_ranges(rows[i / 256], trail_of(i)))
}

/// The 0/1 integer form of a boolean bitmap.
pub open spec fn int_bitmap(table: Seq<bool>) -> Seq<i32> {
    table.map_values(|b: bool| if b { 1i32 } else { 0i32 })
}

/// Every pair of a lead byte 0x80..=0xFF and a trailing byte has its own
/// entry in the bitmap.
pub proof fn lemma_pair_index(lead: u8, trail: u8)
    requires
        lead >= 0x80,
    ensures
        0 <= pair_index(lead, trail) < TABLE_SIZE,
        pair_index(lead, trail) / 256 == lead - 0x80,
        pair_index(lead, trail) % 256 == trail,
{
    let i = pair_index(lead, trail);
    vstd::arithmetic::div_mod::lemma_fundamental_div_mod_converse(
        i,
        256,
        (lead - 0x80) as int,
        trail as int,
    );
}

/// The entry of a pair in the bitmap of a range table, and in its integer form.
pub proof fn lemma_bitmap_entry(rows: Seq<Seq<(u8, u8)>>, lead: u8, trail: u8)
    requires
        lead >= 0x80,
    ensures
        bitmap_of(rows)[pair_index(lead, trail)] == in_ranges(rows[lead - 0x80], trail),
        int_bitmap(bitmap_of(rows))[pair_index(lead, trail)] == (if in_ranges(
            rows[lead - 0x80],
            trail,
        ) {
            1i32
        } else {
            0i32
        }),
{
    lemma_pair_index(lead, trail);
}

/// Compiles a table of valid trailing-byte ranges, one row per lead byte
/// 0x80..=0xFF, into a bitmap indexed by `pair_index`.
pub fn build_table(valid_ranges: &[&[(u8, u8)]; 128]) -> (table: [bool; 32768])
    ensures
        table@ == bitmap_of(valid_ranges@.map_values(|r: &[(u8, u8)]| r@)),
{
    let mut table = [false; 32768];
    let mut row: usize = 0;
    while row < 128
        invariant
            row <= 128,
            forall|i: int|
                0 <= i < row * 256 ==> #[trigger] table@[i] == in_ranges(
                    valid_ranges@[i / 256]@,
                    trail_of(i),
                ),
            forall|i: int| row * 256 <= i < TABLE_SIZE ==> !#[trigger] table@[i],
        decreases 128 - row,
    {
        let ranges: &[(u8, u8)] = valid_ranges[row];
        let mut j: usize = 0;
        while j < ranges.len()
            invariant
                row < 128,
                j <= ranges@.len(),
                ranges@ == valid_ranges@[row as int]@,
                forall|i: int|
                    0 <= i < row * 256 ==> #[trigger] table@[i] == in_ranges(
                        valid_ranges@[i / 256]@,
                        trail_of(i),
                    ),
                forall|i: int| (row + 1) * 256 <= i < TABLE_SIZE ==> !#[trigger] table@[i],
                forall|t: int|
                    0 <= t < 256 ==> #[trigger] table@[row * 256 + t] == in_ranges(
                        ranges@.take(j as int),
                        t as u8,
                    ),
            decreases ranges@.len() - j,
        {
            let (start, end) = ranges[j];
            let mut trail: usize = start as usize;
            while trail <= end as usize
                invariant
                    row < 128,
                    j < ranges@.len(),
                    ranges@ == valid_ranges@[row as int]@,
                    (start, end) == ranges@[j as int],
                    start <= trail,
                    trail <= end as usize + 1 || trail == start as usize,
                    forall|i: int|
                        0 <= i < row * 256 ==> #[trigger] table@[i] == in_ranges(
                            valid_ranges@[i / 256]@,
                            trail_of(i),
                        ),
                    forall|i: int| (row + 1) * 256 <= i < TABLE_SIZE ==> !#[trigger] table@[i],
                    forall|t: int|
                        0 <= t < 256 ==> #[trigger] table@[row * 256 + t] == (in_ranges(
                            ranges@.take(j as int),
                            t as u8,
                        ) || (start <= t < trail && t <= end)),
                decreases end as usize + 1 - trail,
            {
                table[row * 256 + trail] = true;
                trail += 1;
            }
            proof {
                let next = ranges@.take(j + 1);
                assert(next.drop_last() =~= ranges@.take(j as int));
                assert forall|t: int| 0 <= t < 256 implies #[trigger] table@[row * 256 + t]
                    == in_ranges(next, t as u8) by {
                    assert(next.last() == (start, end));
                }
            }
            j += 1;
        }
        proof {
            assert(ranges@.take(ranges@.len() as int) =~= ranges@);
            assert forall|i: int| 0 <= i < (row + 1) * 256 implies #[trigger] table@[i]
                == in_ranges(valid_ranges@[i / 256]@, trail_of(i)) by {
                if i >= row * 256 {
                    let t = i - row * 256;
                    vstd::arithmetic::div_mod::lemma_fundamental_div_mod_converse(
                        i,
                        256,
                        row as int,
                        t,
                    );
                    assert(table@[row * 256 + t] == in_ranges(ranges@, t as u8));
                }
            }
        }
        row += 1;
    }
    proof {
        assert forall|i: int| 0 <= i < TABLE_SIZE implies #[trigger] table@[i] == bitmap_of(
            valid_ranges@.map_values(|r: &[(u8, u8)]| r@),
        )[i] by {
            vstd::arithmetic::div_mod::lemma_fundamental_div_mod(i, 256);
        }
        assert(table@ =~= bitmap_of(valid_ranges@.map_values(|r: &[(u8, u8)]| r@)));
    }
    table
}

/// The 0/1 integer form of a boolean bitmap, for lane-wise lookups.
pub fn build_i32_table_from_bool(table: &[bool; 32768]) -> (r: [i32; 32768])
    ensures
        r@ == int_bitmap(table@),
{
    let mut ints = [0i32; 32768];
    let mut i: usize = 0;
    while i < TABLE_SIZE
        invariant
            i <= TABLE_SIZE,
            forall|k: int| 0 <= k < i ==> #[trigger] ints@[k] == (if table@[k] { 1i32 } else { 0i32 }),
        decreases TABLE_SIZE - i,
    {
        ints[i] = if table[i] { 1 } else { 0 };
        i += 1;
    }
    assert(ints@ =~= int_bitmap(table@));
    ints
}

/// Width of a window of the bulk validators.
pub const WINDOW: usize = 16;

/// Validity of `s` from position `i` on, for an encoding whose units are
/// single ASCII bytes and two-byte units `(lead, trail)` with `lead >= 0x80`
/// accepted by `pair`.
pub open spec fn pairs_valid_from(s: Seq<u8>, i: int, pair: spec_fn(u8, u8) -> bool) -> bool
    decreases s.len() - i,
{
    if i >= s.len() {
        true
    } else if s[i] < 0x80 {
        pairs_valid_from(s, i + 1, pair)
    } else {
        i + 1 < s.len() && pair(s[i], s[i + 1]) && pairs_valid_from(s, i + 2, pair)
    }
}

/// Pairs that a boolean bitmap accepts, for lead bytes 0xA1..=0xFE.
pub open spec fn lookup_pair(table: Seq<bool>) -> spec_fn(u8, u8) -> bool {
    |lead: u8, trail: u8| 0xA1 <= lead <= 0xFE && table[pair_index(lead, trail)]
}

/// Pairs that an integer bitmap accepts, for lead and trailing bytes 0xA1..=0xFE.
pub open spec fn int_pair(table: Seq<i32>) -> spec_fn(u8, u8) -> bool {
    |lead: u8, trail: u8|
        0xA1 <= lead <= 0xFE && 0xA1 <= trail <= 0xFE && table[pair_index(lead, trail)] == 1
}

/// The window of `WINDOW` bytes at `start` holds only bytes of the given class.
pub open spec fn window_all(s: Seq<u8>, start: int, high: bool) -> bool {
    forall|k: int| start <= k < start + WINDOW ==> (#[trigger] s[k] >= 0x80) == high
}

/// How the bytes of a window divide between ASCII and high bytes.
pub enum Window {
    Ascii,
    High,
    Mixed,
}

/// Classifies the window of `WINDOW` bytes at `start` by its high bits.
pub fn classify_window(data: &[u8], start: usize) -> (w: Window)
    requires
        start + WINDOW <= data.len(),
    ensures
        w is Ascii <==> window_all(data@, start as int, false),
        w is High <==> window_all(data@, start as int, true),
{
    let mut high: usize = 0;
    let mut k: usize = 0;
    while k < WINDOW
        invariant
            k <= WINDOW,
            start + WINDOW <= data.len(),
            high <= k,
            high == 0 <==> forall|m: int| start <= m < start + k ==> #[trigger] data@[m] < 0x80,
            high == k <==> forall|m: int| start <= m < start + k ==> #[trigger] data@[m] >= 0x80,
        decreases WINDOW - k,
    {
        if data[start + k] >= 0x80 {
            high += 1;
        }
        k += 1;
    }
    if high == 0 {
        Window::Ascii
    } else if high == WINDOW {
        Window::High
    } else {
        Window::Mixed
    }
}

/// One pair of the integer form of a two-byte bitmap.
fn int_pair_ok(table: &[i32; 32768], lead: u8, trail: u8) -> (r: bool)
    ensures
        r == int_pair(table@)(lead, trail),
{
    if 0xA1 <= lead && lead <= 0xFE && 0xA1 <= trail && trail <= 0xFE {
        proof {
            lemma_pair_index(lead, trail);
        }
        table[(lead - 0x80) as usize * 256 + trail as usize] == 1
    } else {
        false
    }
}

/// Walks a two-byte encoding, probing a boolean bitmap for each pair.
pub fn pairs_lookup(data: &[u8], table: &[bool; 32768]) -> (r: bool)
    ensures
        r == pairs_valid_from(data@, 0, lookup_pair(table@)),
{
    let mut i: usize = 0;
    while i < data.len()
        invariant
            i <= data@.len(),
            pairs_valid_from(data@, 0, lookup_pair(table@)) == pairs_valid_from(
                data@,
                i as int,
                lookup_pair(table@),
            ),
        decreases data@.len() - i,
    {
        let lead = data[i];
        if lead < 0x80 {
            i += 1;
        } else {
            if i + 1 >= data.len() {
                return false;
            }
            if lead < 0xA1 || lead > 0xFE {
                return false;
            }
            let trail = data[i + 1];
            proof {
                lemma_pair_index(lead, trail);
            }
            if !table[(lead - 0x80) as usize * 256 + trail as usize] {
                return false;
            }
            i += 2;
        }
    }
    true
}

/// Appending bytes after a well-formed two-byte prefix leaves the walk at the
/// end of the prefix.
pub proof fn lemma_pairs_concat(p: Seq<u8>, q: Seq<u8>, i: int, pair: spec_fn(u8, u8) -> bool)
    requires
        0 <= i <= p.len(),
        pairs_valid_from(p, i, pair),
    ensures
        pairs_valid_from(p + q, i, pair) == pairs_valid_from(p + q, p.len() as int, pair),
    decreases p.len() - i,
{
    if i < p.len() {
        let s = p + q;
        assert(s[i] == p[i]);
        if p[i] < 0x80 {
            lemma_pairs_concat(p, q, i + 1, pair);
        } else {
            assert(s[i + 1] == p[i + 1]);
            lemma_pairs_concat(p, q, i + 2, pair);
        }
    }
}

/// Extending a well-formed prefix by one complete unit keeps it well-formed.
pub proof fn lemma_pairs_prefix_grow(
    s: Seq<u8>,
    start: int,
    i: int,
    k: int,
    pair: spec_fn(u8, u8) -> bool,
)
    requires
        0 <= start <= i,
        i + k <= s.len(),
        pairs_valid_from(s.subrange(0, i), start, pair),
        k == 1 ==> s[i] < 0x80,
        k == 2 ==> s[i] >= 0x80 && pair(s[i], s[i + 1]),
        k == 1 || k == 2,
    ensures
        pairs_valid_from(s.subrange(0, i + k), start, pair),
{
    let p = s.subrange(0, i);
    let w = s.subrange(0, i + k);
    assert(p + s.subrange(i, i + k) =~= w);
    lemma_pairs_concat(p, s.subrange(i, i + k), start, pair);
    assert(w[i] == s[i]);
    if k == 2 {
        assert(w[i + 1] == s[i + 1]);
    }
    assert(pairs_valid_from(w, i + k, pair));
}

/// After a well-formed prefix, a unit that fails within the first `end` bytes
/// makes the buffer invalid whatever follows those bytes.
pub proof fn lemma_pairs_fails(
    s: Seq<u8>,
    start: int,
    i: int,
    end: int,
    pair: spec_fn(u8, u8) -> bool,
)
    requires
        0 <= start <= i < end <= s.len(),
        pairs_valid_from(s.subrange(0, i), start, pair),
        s[i] >= 0x80,
        i + 1 < end ==> !pair(s[i], s[i + 1]),
        i + 1 >= end ==> forall|b: u8| !#[trigger] pair(s[i], b),
    ensures
        forall|t: Seq<u8>| !#[trigger] pairs_valid_from(s.subrange(0, end) + t, start, pair),
        !pairs_valid_from(s, start, pair),
{
    let p = s.subrange(0, i);
    assert forall|t: Seq<u8>| !#[trigger] pairs_valid_from(s.subrange(0, end) + t, start, pair) by {
        let w = s.subrange(0, end) + t;
        assert(p + w.subrange(i, w.len() as int) =~= w);
        lemma_pairs_concat(p, w.subrange(i, w.len() as int), start, pair);
        assert(w[i] == s[i]);
        if i + 1 < end {
            assert(w[i + 1] == s[i + 1]);
        }
    }
    assert(s.subrange(0, end) + s.subrange(end, s.len() as int) =~= s);
}

/// Resynchronises a two-byte walk over `data[start..end]` against an integer
/// bitmap: -1 if a unit there is invalid, 0 if the units end exactly at
/// `end`, 1 if a unit starts at `end - 1` and needs the byte after `end`.
fn pairs_fallback(data: &[u8], start: usize, end: usize, table: &[i32; 32768]) -> (r: i32)
    requires
        start <= end <= data@.len(),
    ensures
        -1 <= r <= 1,
        r == -1 ==> !pairs_valid_from(data@, start as int, int_pair(table@)),
        r == -1 ==> forall|t: Seq<u8>|
            !#[trigger] pairs_valid_from(
                data@.subrange(0, end as int) + t,
                start as int,
                int_pair(table@),
            ),
        r >= 0 ==> start + r <= end && pairs_valid_from(
            data@.subrange(0, end - r),
            start as int,
            int_pair(table@),
        ) && pairs_valid_from(data@, start as int, int_pair(table@)) == pairs_valid_from(
            data@,
            end - r,
            int_pair(table@),
        ),
        r == 1 ==> 0xA1 <= data@[end - 1] <= 0xFE,
{
    let mut i: usize = start;
    while i < end
        invariant
            start <= i <= end,
            end <= data@.len(),
            pairs_valid_from(data@.subrange(0, i as int), start as int, int_pair(table@)),
            pairs_valid_from(data@, start as int, int_pair(table@)) == pairs_valid_from(
                data@,
                i as int,
                int_pair(table@),
            ),
        decreases end - i,
    {
        let lead = data[i];
        if lead < 0x80 {
            proof {
                lemma_pairs_prefix_grow(data@, start as int, i as int, 1, int_pair(table@));
            }
            i += 1;
        } else if 0xA1 <= lead && lead <= 0xFE {
            if i + 1 >= end {
                return 1;
            }
            if !int_pair_ok(table, lead, data[i + 1]) {
                proof {
                    lemma_pairs_fails(data@, start as int, i as int, end as int, int_pair(table@));
                }
                return -1;
            }
            proof {
                lemma_pairs_prefix_grow(data@, start as int, i as int, 2, int_pair(table@));
            }
            i += 2;
        } else {
            proof {
                lemma_pairs_fails(data@, start as int, i as int, end as int, int_pair(table@));
            }
            return -1;
        }
    }
    0
}

/// All eight pairs of a window of high bytes, against an integer bitmap.
fn pairs_window_ok(data: &[u8], start: usize, table: &[i32; 32768]) -> (r: bool)
    requires
        start + WINDOW <= data.len(),
        window_all(data@, start as int, true),
    ensures
        r ==> pairs_valid_from(data@, start as int, int_pair(table@)) == pairs_valid_from(
            data@,
            start + WINDOW,
            int_pair(table@),
        ),
        !r ==> !pairs_valid_from(data@, start as int, int_pair(table@)),
{
    let mut k: usize = 0;
    while k < WINDOW
        invariant
            k <= WINDOW,
            k % 2 == 0,
            start + WINDOW <= data.len(),
            window_all(data@, start as int, true),
            pairs_valid_from(data@, start as int, int_pair(table@)) == pairs_valid_from(
                data@,
                start + k,
                int_pair(table@),
            ),
        decreases WINDOW - k,
    {
        assert(data@[start + k] >= 0x80);
        if !int_pair_ok(table, data[start + k], data[start + k + 1]) {
            return false;
        }
        k += 2;
    }
    true
}

/// Walks a two-byte encoding in windows of `WINDOW` bytes: an ASCII window
/// is skipped, a window of high bytes is checked as eight pairs, and any
/// other window, as well as the tail, goes through the fallback.
pub fn pairs_windowed(data: &[u8], table: &[i32; 32768]) -> (r: bool)
    ensures
        r == pairs_valid_from(data@, 0, int_pair(table@)),
{
    let len = data.len();
    let mut i: usize = 0;
    while WINDOW <= len - i
        invariant
            i <= len == data@.len(),
            pairs_valid_from(data@, 0, int_pair(table@)) == pairs_valid_from(
                data@,
                i as int,
                int_pair(table@),
            ),
        decreases len - i,
    {
        match classify_window(data, i) {
            Window::Ascii => {
                proof {
                    lemma_ascii_run(data@, i as int, WINDOW as int, int_pair(table@));
                }
                i += WINDOW;
            },
            Window::High => {
                if !pairs_window_ok(data, i, table) {
                    return false;
                }
                i += WINDOW;
            },
            Window::Mixed => {
                let back = pairs_fallback(data, i, i + WINDOW, table);
                if back == -1 {
                    return false;
                }
                i = i + WINDOW - back as usize;
            },
        }
    }
    if i < len {
        pairs_fallback(data, i, len, table) == 0
    } else {
        true
    }
}

/// A run of ASCII bytes is skipped by a two-byte walk.
pub proof fn lemma_ascii_run(s: Seq<u8>, start: int, n: int, pair: spec_fn(u8, u8) -> bool)
    requires
        0 <= start,
        0 <= n,
        start + n <= s.len(),
        forall|k: int| start <= k < start + n ==> #[trigger] s[k] < 0x80,
    ensures
        pairs_valid_from(s, start, pair) == pairs_valid_from(s, start + n, pair),
    decreases n,
{
    if n > 0 {
        lemma_ascii_run(s, start + 1, n - 1, pair);
    }
}

/// A legacy encoding that the general decoding library is asked to decode.
#[derive(Clone, Copy, Debug, PartialEq, Eq, Structural)]
pub enum Charset {
    Gbk,
    Gb18030,
    EucKr,
    EucJp,
}

/// What decoding `bytes` as `charset` gives: the text, and whether some
/// malformed sequence was replaced.
pub uninterp spec fn decode_outcome(charset: Charset, bytes: Seq<u8>) -> (Seq<char>, bool);

/// Relies on encoding_rs::Encoding::decode, with its BOM sniffing: the decoded
/// text and whether malformed sequences were replaced, which depend on the
/// encoding and the bytes alone. It panics only where the size of the output
/// buffer overflows, which the bound on the length excludes.
#[verifier::external_body]
fn decode(charset: Charset, data: &[u8]) -> (r: (String, bool))
    requires
        data@.len() <= usize::MAX / 8,
    ensures
        (r.0@, r.1) == decode_outcome(charset, data@),
{
    let encoding = match charset {
        Charset::Gbk => encoding_rs::GBK,
        Charset::Gb18030 => encoding_rs::GB18030,
        Charset::EucKr => encoding_rs::EUC_KR,
        Charset::EucJp => encoding_rs::EUC_JP,
    };
    let (text, _, had_errors) = encoding.decode(data);
    (text.into_owned(), had_errors)
}

/// The verdict of a decoding: no malformed sequence, and some text.
pub fn decode_accepted(text: &str, had_errors: bool) -> (r: bool)
    ensures
        r == (!had_errors && text@.len() > 0),
{
    !had_errors && !text.is_empty()
}

/// Verdict of the general decoding library on `data` as `targeted_encoding`.
pub fn is_encoding_rs(data: &[u8], targeted_encoding: Charset) -> (r: bool)
    requires
        data@.len() <= usize::MAX / 8,
    ensures
        r == (!decode_outcome(targeted_encoding, data@).1 && decode_outcome(
            targeted_encoding,
            data@,
        ).0.len() > 0),
{
    let (text, had_errors) = decode(targeted_encoding, data);
    decode_accepted(text.as_str(), had_errors)
}

} // verus!
