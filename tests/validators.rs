use janus::euc_jp::{build_jp_table, is_jp_lookup, is_jp_range, is_jp_rs, is_jp_simd};
use janus::euc_kr::{build_kr_table, is_kr_lookup, is_kr_range, is_kr_rs, is_kr_simd};
use janus::gb18030::{is_gb18030_fsm, is_gb18030_rs, is_gb18030_simd};
use janus::gb2312::{
    build_gb2312_table, is_gb2312_lookup, is_gb2312_range, is_gb2312_rs, is_gb2312_simd,
};
use janus::tools::{build_i32_table_from_bool, build_table, decode_accepted, is_encoding_rs, Charset};

fn gb2312_all(data: &[u8]) -> [bool; 3] {
    let table = build_gb2312_table();
    let ints = build_i32_table_from_bool(&table);
    [is_gb2312_range(data), is_gb2312_lookup(data, &table), is_gb2312_simd(data, &ints)]
}

fn kr_all(data: &[u8]) -> [bool; 3] {
    let table = build_kr_table();
    let ints = build_i32_table_from_bool(&table);
    [is_kr_range(data), is_kr_lookup(data, &table), is_kr_simd(data, &ints)]
}

fn jp_all(data: &[u8]) -> [bool; 3] {
    let table = build_jp_table();
    let ints = build_i32_table_from_bool(&table);
    [is_jp_range(data), is_jp_lookup(data, &table), is_jp_simd(data, &ints)]
}

fn gb18030_all(data: &[u8]) -> [bool; 2] {
    [is_gb18030_fsm(data), is_gb18030_simd(data)]
}

fn accepted_by_all(data: &[u8]) -> bool {
    gb2312_all(data) == [true; 3]
        && kr_all(data) == [true; 3]
        && jp_all(data) == [true; 3]
        && gb18030_all(data) == [true; 2]
}

#[test]
fn empty_buffer_is_accepted_everywhere() {
    assert!(accepted_by_all(&[]));
}

#[test]
fn ascii_only_is_accepted_everywhere() {
    let short = b"Hello, world!".to_vec();
    let all: Vec<u8> = (0u8..=0x7F).collect();
    let long: Vec<u8> = (0..1000).map(|i| (i % 128) as u8).collect();
    assert!(accepted_by_all(&short));
    assert!(accepted_by_all(&all));
    assert!(accepted_by_all(&long));
}

#[test]
fn truncated_lead_is_rejected() {
    assert_eq!(gb2312_all(&[0xA1]), [false; 3]);
    assert_eq!(gb2312_all(&[0xB0, 0xA1, 0xA1]), [false; 3]);
    assert_eq!(kr_all(&[0xB0]), [false; 3]);
    assert_eq!(jp_all(&[0xA4]), [false; 3]);
    assert_eq!(jp_all(&[0x8E]), [false; 3]);
    assert_eq!(jp_all(&[0x8F]), [false; 3]);
    assert_eq!(jp_all(&[0x8F, 0xB0]), [false; 3]);
    assert_eq!(gb18030_all(&[0x81]), [false; 2]);
    assert_eq!(gb18030_all(&[0x81, 0x30]), [false; 2]);
    assert_eq!(gb18030_all(&[0x81, 0x30, 0x81]), [false; 2]);
}

#[test]
fn truncated_lead_after_long_prefix_is_rejected() {
    let mut data = vec![b'a'; 31];
    data.push(0xB0);
    assert_eq!(gb2312_all(&data), [false; 3]);
    assert_eq!(kr_all(&data), [false; 3]);
    assert_eq!(jp_all(&data), [false; 3]);
    assert_eq!(gb18030_all(&data), [false; 2]);
}

#[test]
fn gb2312_holes_and_neighbours() {
    let cases: [([u8; 2], bool); 12] = [
        ([0xA2, 0xA1], false),
        ([0xA2, 0xB1], true),
        ([0xA2, 0xE3], false),
        ([0xA2, 0xE2], true),
        ([0xA4, 0xF4], false),
        ([0xA4, 0xF3], true),
        ([0xA9, 0xA3], false),
        ([0xA9, 0xA4], true),
        ([0xD7, 0xFA], false),
        ([0xD7, 0xF9], true),
        ([0xAA, 0xA1], false),
        ([0xF7, 0xFE], true),
    ];
    for (pair, expected) in cases {
        assert_eq!(gb2312_all(&pair), [expected; 3], "{:02X?}", pair);
    }
}

#[test]
fn euc_kr_holes_and_neighbours() {
    let cases: [([u8; 2], bool); 12] = [
        ([0xA2, 0xE8], false),
        ([0xA2, 0xE7], true),
        ([0xA4, 0xD4], false),
        ([0xA4, 0xD3], true),
        ([0xA5, 0xAF], false),
        ([0xA5, 0xB0], true),
        ([0xA8, 0xA5], false),
        ([0xA8, 0xA6], true),
        ([0xC9, 0xA1], false),
        ([0xC8, 0xFE], true),
        ([0xFE, 0xA1], false),
        ([0xFD, 0xFE], true),
    ];
    for (pair, expected) in cases {
        assert_eq!(kr_all(&pair), [expected; 3], "{:02X?}", pair);
    }
}

#[test]
fn euc_jp_holes_and_neighbours() {
    let cases: [(&[u8], bool); 14] = [
        (&[0xA2, 0xAF], false),
        (&[0xA2, 0xAE], true),
        (&[0xCF, 0xD4], false),
        (&[0xCF, 0xD3], true),
        (&[0xF4, 0xA7], false),
        (&[0xF4, 0xA6], true),
        (&[0xA9, 0xA1], false),
        (&[0x8E, 0xA1], true),
        (&[0x8E, 0xDF], true),
        (&[0x8E, 0xE0], false),
        (&[0x8F, 0xA2, 0xA1], false),
        (&[0x8F, 0xA2, 0xAF], true),
        (&[0x8F, 0xA1, 0xB0], false),
        (&[0x8F, 0xB0, 0xA1], true),
    ];
    for (unit, expected) in cases {
        assert_eq!(jp_all(unit), [expected; 3], "{:02X?}", unit);
    }
}

#[test]
fn gb18030_four_byte_bounds() {
    assert_eq!(gb18030_all(&[0x81, 0x30, 0x81, 0x30]), [true; 2]);
    assert_eq!(gb18030_all(&[0x84, 0x31, 0xA4, 0x39]), [true; 2]);
    assert_eq!(gb18030_all(&[0x84, 0x31, 0xA4, 0x3A]), [false; 2]);
    assert_eq!(gb18030_all(&[0x84, 0x31, 0xA5, 0x30]), [false; 2]);
    assert_eq!(gb18030_all(&[0x90, 0x30, 0x81, 0x30]), [true; 2]);
    assert_eq!(gb18030_all(&[0xE3, 0x32, 0x9A, 0x35]), [true; 2]);
    assert_eq!(gb18030_all(&[0xE3, 0x32, 0x9A, 0x36]), [false; 2]);
}

#[test]
fn gb18030_two_byte_units() {
    assert_eq!(gb18030_all(&[0x81, 0x40]), [true; 2]);
    assert_eq!(gb18030_all(&[0xFE, 0xFE]), [true; 2]);
    assert_eq!(gb18030_all(&[0x81, 0x7F]), [false; 2]);
    assert_eq!(gb18030_all(&[0x81, 0xFF]), [false; 2]);
    assert_eq!(gb18030_all(&[0x80, 0x40]), [false; 2]);
    assert_eq!(gb18030_all(&[0xFF, 0x40]), [false; 2]);
}

#[test]
fn units_straddling_a_window_boundary() {
    let mut gb = vec![b'x'; 15];
    gb.extend_from_slice(&[0xB0, 0xA1]);
    gb.extend_from_slice(&[0xB0, 0xA1].repeat(10));
    assert_eq!(gb2312_all(&gb), [true; 3]);
    assert_eq!(kr_all(&gb), [true; 3]);
    assert_eq!(jp_all(&gb), [true; 3]);
    assert_eq!(gb18030_all(&gb), [true; 2]);

    for offset in 13..16 {
        let mut jp = vec![b'x'; offset];
        jp.extend_from_slice(&[0x8F, 0xB0, 0xA1]);
        jp.extend_from_slice(&[b'y'; 20]);
        assert_eq!(jp_all(&jp), [true; 3], "offset {}", offset);

        let mut four = vec![b'x'; offset];
        four.extend_from_slice(&[0x81, 0x30, 0x81, 0x30]);
        four.extend_from_slice(&[b'y'; 20]);
        assert_eq!(gb18030_all(&four), [true; 2], "offset {}", offset);
    }

    let mut hole = vec![b'x'; 15];
    hole.extend_from_slice(&[0xA2, 0xA1]);
    hole.extend_from_slice(&[b'y'; 20]);
    assert_eq!(gb2312_all(&hole), [false; 3]);
}

#[test]
fn full_windows_of_high_bytes() {
    let good = [0xB0u8, 0xA1].repeat(16);
    assert_eq!(gb2312_all(&good), [true; 3]);
    assert_eq!(kr_all(&good), [true; 3]);
    assert_eq!(jp_all(&good), [true; 3]);
    assert_eq!(gb18030_all(&good), [true; 2]);

    let mut bad = good.clone();
    bad[20] = 0xA2;
    bad[21] = 0xA1;
    assert_eq!(gb2312_all(&bad), [false; 3]);

    let mut jp = [0xB0u8, 0xA1].repeat(4);
    jp.extend_from_slice(&[0x8F, 0xB0, 0xA1]);
    jp.extend_from_slice(&[0xB0u8, 0xA1].repeat(8));
    assert_eq!(jp_all(&jp), [true; 3]);
}

#[test]
fn gb2312_table_entries() {
    let table = build_gb2312_table();
    assert!(table[(0xB0 - 0x80) * 256 + 0xA1]);
    assert!(!table[(0xA2 - 0x80) * 256 + 0xA1]);
    assert!(!table[(0xB0 - 0x80) * 256 + 0x41]);
    assert_eq!(table.iter().filter(|&&b| b).count(), 7445);
}

#[test]
fn jp_table_katakana_row() {
    let table = build_jp_table();
    assert!(table[(0x8E - 0x80) * 256 + 0xA1]);
    assert!(table[(0x8E - 0x80) * 256 + 0xDF]);
    assert!(!table[(0x8E - 0x80) * 256 + 0xE0]);
}

#[test]
fn build_table_from_ranges() {
    let empty: &[(u8, u8)] = &[];
    let mut rows = [empty; 128];
    let row: &[(u8, u8)] = &[(0x10, 0x12), (0xFF, 0xFF)];
    rows[1] = row;
    let table = build_table(&rows);
    assert_eq!(table.iter().filter(|&&b| b).count(), 4);
    assert!(table[256 + 0x10] && table[256 + 0x11] && table[256 + 0x12] && table[256 + 0xFF]);
    assert!(!table[256 + 0x13] && !table[0x10]);

    let ints = build_i32_table_from_bool(&table);
    assert_eq!(ints[256 + 0x11], 1);
    assert_eq!(ints[256 + 0x13], 0);
    assert_eq!(ints.iter().sum::<i32>(), 4);
}

#[test]
fn lookup_follows_the_given_table() {
    let mut table = [false; 32768];
    table[(0xA1 - 0x80) * 256 + 0x41] = true;
    assert!(is_gb2312_lookup(&[0xA1, 0x41], &table));
    assert!(!is_gb2312_lookup(&[0xA1, 0x42], &table));
    assert!(is_kr_lookup(&[0xA1, 0x41], &table));
}

#[test]
fn decoding_oracle_verdicts() {
    assert!(is_gb2312_rs(&[0xB0, 0xA1]));
    assert!(!is_gb2312_rs(&[0xB0]));
    assert!(!is_gb2312_rs(&[]));
    assert!(is_gb18030_rs(&[0x81, 0x30, 0x81, 0x30]));
    assert!(!is_gb18030_rs(&[0xFF]));
    assert!(is_kr_rs(&[0xA5, 0xB0]));
    assert!(!is_kr_rs(&[0xFF]));
    assert!(is_jp_rs(&[0xA4, 0xA2]));
    assert!(!is_jp_rs(&[0xA4]));
    assert!(is_encoding_rs(b"abc", Charset::EucJp));
    assert!(decode_accepted("a", false));
    assert!(!decode_accepted("a", true));
    assert!(!decode_accepted("", false));
}
