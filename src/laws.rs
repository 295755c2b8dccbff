use crate::euc_jp::{lemma_jp_concat, jis0208_hole, jis0212_hole, jp_valid, jp_valid_from, lemma_jp_pair};
use crate::euc_kr::{kr_hole, kr_valid, lemma_kr_pair};
use crate::gb18030::{gb18030_valid, gb18030_valid_from, lemma_gb18030_concat};
use crate::gb2312::{gb2312_hole, gb2312_valid, lemma_gb2312_pair};
use crate::tools::{lemma_pairs_concat, pairs_valid_from};
use vstd::prelude::*;

verus! {




/// Every strategy of every encoding accepts a buffer of ASCII bytes only,
/// whatever bitmap the table-driven strategies are given.
pub proof fn lemma_ascii_only_accepted(s: Seq<u8>)
    requires
        forall|k: int| 0 <= k < s.len() ==> #[trigger] s[k] <= 0x7F,
    ensures
        forall|pair: spec_fn(u8, u8) -> bool| #[trigger] pairs_valid_from(s, 0, pair),
        forall|pair: spec_fn(u8, u8) -> bool| #[trigger] jp_valid_from(s, 0, pair),
        gb2312_valid(s),
        kr_valid(s),
        jp_valid(s),
        gb18030_valid(s),
{
    assert forall|pair: spec_fn(u8, u8) -> bool| #[trigger] pairs_valid_from(s, 0, pair) by {
        crate::tools::lemma_ascii_run(s, 0, s.len() as int, pair);
    }
    assert forall|pair: spec_fn(u8, u8) -> bool| #[trigger] jp_valid_from(s, 0, pair) by {
        crate::euc_jp::lemma_ascii_run(s, 0, s.len() as int, pair);
    }
    crate::gb18030::lemma_ascii_run(s, 0, s.len() as int);
    assert(gb2312_valid(s));
    assert(kr_valid(s));
    assert(jp_valid(s));
}

/// Every strategy of every encoding accepts the empty buffer, whatever bitmap
/// the table-driven strategies are given.
pub proof fn lemma_empty_accepted()
    ensures
        forall|pair: spec_fn(u8, u8) -> bool| #[trigger] pairs_valid_from(Seq::empty(), 0, pair),
        forall|pair: spec_fn(u8, u8) -> bool| #[trigger] jp_valid_from(Seq::empty(), 0, pair),
        gb2312_valid(Seq::empty()),
        kr_valid(Seq::empty()),
        jp_valid(Seq::empty()),
        gb18030_valid(Seq::empty()),
{
}

/// A well-formed buffer followed by a lead byte without its trailing bytes is
/// rejected by every strategy of every encoding, whatever bitmap the
/// table-driven strategies are given; so are an EUC-JP buffer ending in 0x8F
/// and one trailing byte, and a GB18030 buffer ending in the first two or
/// three bytes of a four-byte unit.
pub proof fn lemma_truncated_unit_rejected(p: Seq<u8>, lead: u8, second: u8, third: u8)
    requires
        lead >= 0x80,
    ensures
        forall|pair: spec_fn(u8, u8) -> bool| #[trigger]
            pairs_valid_from(p, 0, pair) ==> !pairs_valid_from(p.push(lead), 0, pair),
        forall|pair: spec_fn(u8, u8) -> bool| #[trigger]
            jp_valid_from(p, 0, pair) ==> !jp_valid_from(p.push(lead), 0, pair),
        forall|pair: spec_fn(u8, u8) -> bool| #[trigger]
            jp_valid_from(p, 0, pair) ==> !jp_valid_from(p.push(0x8F).push(second), 0, pair),
        gb18030_valid(p) ==> !gb18030_valid(p.push(lead)),
        gb18030_valid(p) && 0x30 <= second <= 0x39 ==> !gb18030_valid(p.push(lead).push(second)),
        gb18030_valid(p) && 0x30 <= second <= 0x39 ==> !gb18030_valid(
            p.push(lead).push(second).push(third),
        ),
{
    let n = p.len() as int;
    let one = p.push(lead);
    let jp_two = p.push(0x8F).push(second);
    let two = p.push(lead).push(second);
    let three = p.push(lead).push(second).push(third);
    assert(one =~= p + seq![lead]);
    assert(jp_two =~= p + seq![0x8Fu8, second]);
    assert(two =~= p + seq![lead, second]);
    assert(three =~= p + seq![lead, second, third]);
    assert(one[n] == lead);
    assert(jp_two[n] == 0x8F);
    assert(two[n] == lead && two[n + 1] == second);
    assert(three[n] == lead && three[n + 1] == second);
    assert forall|pair: spec_fn(u8, u8) -> bool| #[trigger]
        pairs_valid_from(p, 0, pair) implies !pairs_valid_from(one, 0, pair) by {
        lemma_pairs_concat(p, seq![lead], 0, pair);
    }
    assert forall|pair: spec_fn(u8, u8) -> bool| #[trigger]
        jp_valid_from(p, 0, pair) implies !jp_valid_from(one, 0, pair) && !jp_valid_from(
        jp_two,
        0,
        pair,
    ) by {
        lemma_jp_concat(p, seq![lead], 0, pair);
        lemma_jp_concat(p, seq![0x8Fu8, second], 0, pair);
    }
    if gb18030_valid(p) {
        lemma_gb18030_concat(p, seq![lead], 0);
        lemma_gb18030_concat(p, seq![lead, second], 0);
        lemma_gb18030_concat(p, seq![lead, second, third], 0);
    }
}

/// A buffer holding just one unassigned pair (or, for JIS X 0212, one
/// unassigned three-byte unit) is rejected.
pub proof fn lemma_hole_rejected(lead: u8, trail: u8)
    ensures
        gb2312_hole(lead, trail) ==> !gb2312_valid(seq![lead, trail]),
        kr_hole(lead, trail) ==> !kr_valid(seq![lead, trail]),
        jis0208_hole(lead, trail) ==> !jp_valid(seq![lead, trail]),
        jis0212_hole(lead, trail) ==> !jp_valid(seq![0x8Fu8, lead, trail]),
{
    lemma_gb2312_pair(lead, trail);
    lemma_kr_pair(lead, trail);
    lemma_jp_pair(lead, trail);
    let s = seq![lead, trail];
    let t = seq![0x8Fu8, lead, trail];
    assert(s[0] == lead && s[1] == trail);
    assert(t[0] == 0x8F && t[1] == lead && t[2] == trail);
}

} // verus!
