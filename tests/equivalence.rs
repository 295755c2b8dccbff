use janus::euc_jp::{build_jp_table, is_jp_lookup, is_jp_range, is_jp_simd};
use janus::euc_kr::{build_kr_table, is_kr_lookup, is_kr_range, is_kr_simd};
use janus::gb18030::{is_gb18030_fsm, is_gb18030_simd};
use janus::gb2312::{build_gb2312_table, is_gb2312_lookup, is_gb2312_range, is_gb2312_simd};
use janus::tools::build_i32_table_from_bool;

struct Lcg(u64);

impl Lcg {
    fn next(&mut self) -> u32 {
        self.0 = self.0.wrapping_mul(6364136223846793005).wrapping_add(1442695040888963407);
        (self.0 >> 33) as u32
    }

    fn byte(&mut self, alphabet: &[u8]) -> u8 {
        alphabet[self.next() as usize % alphabet.len()]
    }
}

const ALPHABET: &[u8] = &[
    0x00, 0x30, 0x39, 0x40, 0x41, 0x7E, 0x7F, 0x80, 0x81, 0x84, 0x8E, 0x8F, 0x90, 0x9A, 0xA0,
    0xA1, 0xA2, 0xA3, 0xA4, 0xA5, 0xA6, 0xA8, 0xA9, 0xAA, 0xAD, 0xB0, 0xB9, 0xC9, 0xCF, 0xD4,
    0xD7, 0xDF, 0xE0, 0xE3, 0xED, 0xF4, 0xF7, 0xF8, 0xFD, 0xFE, 0xFF,
];

fn buffers(seed: u64, count: usize) -> Vec<Vec<u8>> {
    let mut rng = Lcg(seed);
    let mut out = Vec::new();
    for _ in 0..count {
        let len = rng.next() as usize % 70;
        let mut data = Vec::with_capacity(len);
        while data.len() < len {
            match rng.next() % 4 {
                0 => data.push(b'a'),
                1 => data.push(rng.byte(ALPHABET)),
                _ => {
                    data.push(0xB0 + (rng.next() % 0x40) as u8);
                    data.push(0xA1 + (rng.next() % 0x5E) as u8);
                }
            }
        }
        out.push(data);
    }
    out
}

#[test]
fn table_strategies_agree_on_random_buffers() {
    let gb = build_gb2312_table();
    let gb_ints = build_i32_table_from_bool(&gb);
    let kr = build_kr_table();
    let kr_ints = build_i32_table_from_bool(&kr);
    let jp = build_jp_table();
    let jp_ints = build_i32_table_from_bool(&jp);
    let mut accepted = 0;
    for data in buffers(7, 5000) {
        let r = is_gb2312_range(&data);
        assert_eq!(is_gb2312_lookup(&data, &gb), r, "{:02X?}", data);
        assert_eq!(is_gb2312_simd(&data, &gb_ints), r, "{:02X?}", data);
        let r = is_kr_range(&data);
        assert_eq!(is_kr_lookup(&data, &kr), r, "{:02X?}", data);
        assert_eq!(is_kr_simd(&data, &kr_ints), r, "{:02X?}", data);
        let r = is_jp_range(&data);
        assert_eq!(is_jp_lookup(&data, &jp), r, "{:02X?}", data);
        assert_eq!(is_jp_simd(&data, &jp_ints), r, "{:02X?}", data);
        if r {
            accepted += 1;
        }
    }
    assert!(accepted > 0);
}

#[test]
fn gb18030_strategies_agree_on_random_buffers() {
    let mut accepted = 0;
    for data in buffers(11, 5000) {
        let r = is_gb18030_fsm(&data);
        assert_eq!(is_gb18030_simd(&data), r, "{:02X?}", data);
        if r {
            accepted += 1;
        }
    }
    assert!(accepted > 0);
}

#[test]
fn all_pairs_agree_between_strategies() {
    let gb = build_gb2312_table();
    let gb_ints = build_i32_table_from_bool(&gb);
    let kr = build_kr_table();
    let kr_ints = build_i32_table_from_bool(&kr);
    let jp = build_jp_table();
    let jp_ints = build_i32_table_from_bool(&jp);
    for lead in 0x80u8..=0xFF {
        for trail in 0u8..=0xFF {
            let mut data = vec![b' '; 15];
            data.push(lead);
            data.push(trail);
            for d in [&data[15..], &data[..]] {
                let r = is_gb2312_range(d);
                assert_eq!(is_gb2312_lookup(d, &gb), r);
                assert_eq!(is_gb2312_simd(d, &gb_ints), r);
                let r = is_kr_range(d);
                assert_eq!(is_kr_lookup(d, &kr), r);
                assert_eq!(is_kr_simd(d, &kr_ints), r);
                let r = is_jp_range(d);
                assert_eq!(is_jp_lookup(d, &jp), r);
                assert_eq!(is_jp_simd(d, &jp_ints), r);
                assert_eq!(is_gb18030_simd(d), is_gb18030_fsm(d));
            }
        }
    }
}
