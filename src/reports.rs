//! Names shown for prize categories.
use vstd::prelude::*;
use vstd::string::*;
use crate::store::{prize_views};
use crate::text::same_text;
use crate::types::{PrizeNumberRow, PrizeRowView};

verus! {

/// The display name of a category; an unknown category shows as itself.
pub open spec fn display_name(category: Seq<char>) -> Seq<char> {
    if category == "first"@ { "รางวัลที่ 1"@ }
    else if category == "second"@ { "รางวัลที่ 2"@ }
    else if category == "third"@ { "รางวัลที่ 3"@ }
    else if category == "fourth"@ { "รางวัลที่ 4"@ }
    else if category == "fifth"@ { "รางวัลที่ 5"@ }
    else if category == "last2"@ { "รางวัลท้าย 2 ตัว"@ }
    else if category == "last3f"@ { "รางวัลท้าย 3 ตัว (หน้า)"@ }
    else if category == "last3b"@ { "รางวัลท้าย 3 ตัว (หลัง)"@ }
    else if category == "near1"@ { "รางวัลใกล้เคียงรางวัลที่ 1"@ }
    else { category }
}

/// The display name of a category; an unknown category shows as itself.
pub fn get_category_display_name(category: &str) -> (r: &str)
    ensures
        r@ == display_name(category@),
{
    if same_text(category, "first") { "รางวัลที่ 1" }
    else if same_text(category, "second") { "รางวัลที่ 2" }
    else if same_text(category, "third") { "รางวัลที่ 3" }
    else if same_text(category, "fourth") { "รางวัลที่ 4" }
    else if same_text(category, "fifth") { "รางวัลที่ 5" }
    else if same_text(category, "last2") { "รางวัลท้าย 2 ตัว" }
    else if same_text(category, "last3f") { "รางวัลท้าย 3 ตัว (หน้า)" }
    else if same_text(category, "last3b") { "รางวัลท้าย 3 ตัว (หลัง)" }
    else if same_text(category, "near1") { "รางวัลใกล้เคียงรางวัลที่ 1" }
    else { category }
}

/// The order in which a report shows the categories.
pub open spec fn report_category(i: int) -> Seq<char> {
    if i == 0 { "first"@ }
    else if i == 1 { "near1"@ }
    else if i == 2 { "second"@ }
    else if i == 3 { "third"@ }
    else if i == 4 { "fourth"@ }
    else if i == 5 { "fifth"@ }
    else if i == 6 { "last3f"@ }
    else if i == 7 { "last3b"@ }
    else { "last2"@ }
}

fn report_category_at(i: usize) -> (r: &'static str)
    requires
        i < 9,
    ensures
        r@ == report_category(i as int),
{
    if i == 0 { "first" }
    else if i == 1 { "near1" }
    else if i == 2 { "second" }
    else if i == 3 { "third" }
    else if i == 4 { "fourth" }
    else if i == 5 { "fifth" }
    else if i == 6 { "last3f" }
    else if i == 7 { "last3b" }
    else { "last2" }
}

/// The style class of a category's section: the first prize stands out, the
/// near and tail prizes share a style, the others are plain.
pub open spec fn section_class(category: Seq<char>) -> Seq<char> {
    if category == "first"@ {
        "prize-section first-prize"@
    } else if category == "near1"@ || category == "last2"@ || category == "last3f"@ || category == "last3b"@ {
        "prize-section special-prize"@
    } else {
        "prize-section"@
    }
}

/// The numbers of category `c`, in stored order.
pub open spec fn of_category(ps: Seq<PrizeRowView>, c: Seq<char>) -> Seq<PrizeRowView>
    decreases ps.len(),
{
    if ps.len() == 0 {
        Seq::empty()
    } else if ps.last().category == c {
        of_category(ps.drop_last(), c).push(ps.last())
    } else {
        of_category(ps.drop_last(), c)
    }
}

/// Where `x` goes among numbers ordered by round: after every number whose
/// round is not greater, so that equal rounds keep their order.
pub open spec fn round_pos(sorted: Seq<PrizeRowView>, x: PrizeRowView) -> int
    decreases sorted.len(),
{
    if sorted.len() == 0 || sorted[0].round_number > x.round_number {
        0
    } else {
        1 + round_pos(sorted.drop_first(), x)
    }
}

/// Numbers ordered by round, equal rounds in their given order.
pub open spec fn by_round(ps: Seq<PrizeRowView>) -> Seq<PrizeRowView>
    decreases ps.len(),
{
    if ps.len() == 0 {
        Seq::empty()
    } else {
        let sorted = by_round(ps.drop_last());
        sorted.insert(round_pos(sorted, ps.last()), ps.last())
    }
}

/// Whether numbers are ordered by round.
pub open spec fn round_sorted(s: Seq<PrizeRowView>) -> bool {
    forall|i: int, j: int| 0 <= i < j < s.len() ==> #[trigger] s[i].round_number <= #[trigger] s[j].round_number
}

/// In numbers ordered by round, those before `round_pos` have a round not
/// greater than `x`'s, and those from it on a greater one.
pub proof fn lemma_round_pos(sorted: Seq<PrizeRowView>, x: PrizeRowView)
    requires
        round_sorted(sorted),
    ensures
        0 <= round_pos(sorted, x) <= sorted.len(),
        forall|k: int| 0 <= k < round_pos(sorted, x) ==> #[trigger] sorted[k].round_number <= x.round_number,
        forall|k: int| round_pos(sorted, x) <= k < sorted.len() ==> #[trigger] sorted[k].round_number > x.round_number,
    decreases sorted.len(),
{
    if sorted.len() > 0 {
        if sorted[0].round_number > x.round_number {
            assert forall|k: int| 0 <= k < sorted.len() implies #[trigger] sorted[k].round_number > x.round_number by {
                if k > 0 {
                    assert(sorted[0].round_number <= sorted[k].round_number);
                }
            }
        } else {
            let rest = sorted.drop_first();
            assert forall|i: int, j: int| 0 <= i < j < rest.len() implies #[trigger] rest[i].round_number
                <= #[trigger] rest[j].round_number by {
                assert(sorted[i + 1].round_number <= sorted[j + 1].round_number);
            }
            lemma_round_pos(rest, x);
            assert forall|k: int| 0 <= k < round_pos(sorted, x) implies #[trigger] sorted[k].round_number
                <= x.round_number by {
                if k > 0 {
                    assert(sorted[k] == rest[k - 1]);
                }
            }
            assert forall|k: int| round_pos(sorted, x) <= k < sorted.len() implies #[trigger] sorted[k].round_number
                > x.round_number by {
                assert(sorted[k] == rest[k - 1]);
            }
        }
    }
}

/// The numbers of a report section are ordered by round.
pub proof fn lemma_by_round_sorted(ps: Seq<PrizeRowView>)
    ensures
        round_sorted(by_round(ps)),
        by_round(ps).len() == ps.len(),
    decreases ps.len(),
{
    if ps.len() > 0 {
        let sorted = by_round(ps.drop_last());
        lemma_by_round_sorted(ps.drop_last());
        lemma_round_pos(sorted, ps.last());
        let p = round_pos(sorted, ps.last());
        let r = sorted.insert(p, ps.last());
        assert forall|i: int, j: int| 0 <= i < j < r.len() implies #[trigger] r[i].round_number
            <= #[trigger] r[j].round_number by {
            if j < p {
            } else if j == p {
                assert(r[i] == sorted[i]);
            } else if i == p {
                assert(r[j] == sorted[j - 1]);
            } else if i < p {
                assert(r[i] == sorted[i] && r[j] == sorted[j - 1]);
            } else {
                assert(r[i] == sorted[i - 1] && r[j] == sorted[j - 1]);
            }
        }
    }
}

/// One section of a draw's report.
pub struct ReportSection {
    pub category: String,
    pub display_name: String,
    pub section_class: String,
    /// The amount of the category's first stored number.
    pub prize_amount: String,
    /// The category's numbers ordered by round.
    pub numbers: Vec<PrizeNumberRow>,
}

/// The model of a [`ReportSection`].
pub struct ReportSectionView {
    pub category: Seq<char>,
    pub display_name: Seq<char>,
    pub section_class: Seq<char>,
    pub prize_amount: Seq<char>,
    pub numbers: Seq<PrizeRowView>,
}

impl View for ReportSection {
    type V = ReportSectionView;

    open spec fn view(&self) -> ReportSectionView {
        ReportSectionView {
            category: self.category@,
            display_name: self.display_name@,
            section_class: self.section_class@,
            prize_amount: self.prize_amount@,
            numbers: prize_views(self.numbers@),
        }
    }
}

/// The section of category `c`, where it has numbers.
pub open spec fn section_of(ps: Seq<PrizeRowView>, c: Seq<char>) -> Option<ReportSectionView> {
    let rows = of_category(ps, c);
    if rows.len() == 0 {
        None
    } else {
        Some(ReportSectionView {
            category: c,
            display_name: display_name(c),
            section_class: section_class(c),
            prize_amount: rows[0].prize_amount,
            numbers: by_round(rows),
        })
    }
}

/// The sections of the first `k` categories in report order.
pub open spec fn sections_upto(ps: Seq<PrizeRowView>, k: int) -> Seq<ReportSectionView>
    decreases k,
{
    if k <= 0 {
        Seq::empty()
    } else {
        match section_of(ps, report_category(k - 1)) {
            Some(sec) => sections_upto(ps, k - 1).push(sec),
            None => sections_upto(ps, k - 1),
        }
    }
}

fn rows_of_category(prizes: &Vec<PrizeNumberRow>, c: &str) -> (r: Vec<PrizeNumberRow>)
    ensures
        prize_views(r@) == of_category(prize_views(prizes@), c@),
{
    let ghost ps = prize_views(prizes@);
    let key = String::from_str(c);
    let mut out: Vec<PrizeNumberRow> = Vec::new();
    let mut i: usize = 0;
    assert(ps.subrange(0, 0) =~= Seq::<PrizeRowView>::empty());
    assert(prize_views(out@) =~= Seq::<PrizeRowView>::empty());
    while i < prizes.len()
        invariant
            0 <= i <= prizes@.len(),
            ps == prize_views(prizes@),
            key@ == c@,
            prize_views(out@) == of_category(ps.subrange(0, i as int), c@),
        decreases prizes@.len() - i,
    {
        assert(ps.subrange(0, i + 1).drop_last() =~= ps.subrange(0, i as int));
        assert(ps.subrange(0, i + 1).last() == prizes@[i as int]@);
        if prizes[i].category == key {
            let ghost before = prize_views(out@);
            out.push(prizes[i].duplicate());
            assert(prize_views(out@) =~= before.push(prizes@[i as int]@));
        }
        i += 1;
    }
    assert(ps.subrange(0, ps.len() as int) =~= ps);
    out
}

fn insert_by_round(sorted: &mut Vec<PrizeNumberRow>, x: PrizeNumberRow)
    ensures
        prize_views(final(sorted)@) == prize_views(old(sorted)@).insert(
            round_pos(prize_views(old(sorted)@), x@),
            x@,
        ),
{
    let ghost s = prize_views(sorted@);
    let mut i: usize = 0;
    assert(s.skip(0) =~= s);
    while i < sorted.len() && sorted[i].round_number <= x.round_number
        invariant
            0 <= i <= s.len(),
            s == prize_views(sorted@),
            s.len() == sorted@.len(),
            round_pos(s, x@) == i + round_pos(s.skip(i as int), x@),
        decreases s.len() - i,
    {
        assert(s.skip(i as int)[0] == sorted@[i as int]@);
        assert(s.skip(i as int).drop_first() =~= s.skip(i + 1));
        i += 1;
    }
    proof {
        if i < s.len() {
            assert(s.skip(i as int)[0] == sorted@[i as int]@);
        }
    }
    let ghost xv = x@;
    sorted.insert(i, x);
    assert(prize_views(sorted@) =~= s.insert(i as int, xv));
}

fn sort_by_round(rows: Vec<PrizeNumberRow>) -> (r: Vec<PrizeNumberRow>)
    ensures
        prize_views(r@) == by_round(prize_views(rows@)),
{
    let ghost ps = prize_views(rows@);
    let mut out: Vec<PrizeNumberRow> = Vec::new();
    let mut i: usize = 0;
    assert(ps.subrange(0, 0) =~= Seq::<PrizeRowView>::empty());
    assert(prize_views(out@) =~= by_round(ps.subrange(0, 0)));
    while i < rows.len()
        invariant
            0 <= i <= rows@.len(),
            ps == prize_views(rows@),
            prize_views(out@) == by_round(ps.subrange(0, i as int)),
        decreases rows@.len() - i,
    {
        assert(ps.subrange(0, i + 1).drop_last() =~= ps.subrange(0, i as int));
        assert(ps.subrange(0, i + 1).last() == rows@[i as int]@);
        insert_by_round(&mut out, rows[i].duplicate());
        i += 1;
    }
    assert(ps.subrange(0, ps.len() as int) =~= ps);
    out
}

fn section_class_text(c: &str) -> (r: &'static str)
    ensures
        r@ == section_class(c@),
{
    if same_text(c, "first") {
        "prize-section first-prize"
    } else if same_text(c, "near1") || same_text(c, "last2") || same_text(c, "last3f") || same_text(c, "last3b") {
        "prize-section special-prize"
    } else {
        "prize-section"
    }
}

/// The sections of a draw's report: one per category that has numbers, in
/// report order (first, near1, second to fifth, last3f, last3b, last2).
pub fn report_sections(prizes: &Vec<PrizeNumberRow>) -> (r: Vec<ReportSection>)
    ensures
        r@.map_values(|s: ReportSection| s@) == sections_upto(prize_views(prizes@), 9),
{
    let ghost ps = prize_views(prizes@);
    let mut out: Vec<ReportSection> = Vec::new();
    let mut k: usize = 0;
    assert(out@.map_values(|s: ReportSection| s@) =~= sections_upto(ps, 0));
    while k < 9
        invariant
            0 <= k <= 9,
            ps == prize_views(prizes@),
            out@.map_values(|s: ReportSection| s@) == sections_upto(ps, k as int),
        decreases 9 - k,
    {
        let c = report_category_at(k);
        let rows = rows_of_category(prizes, c);
        if rows.len() > 0 {
            let prize_amount = rows[0].prize_amount.clone();
            let numbers = sort_by_round(rows);
            let sec = ReportSection {
                category: String::from_str(c),
                display_name: String::from_str(get_category_display_name(c)),
                section_class: String::from_str(section_class_text(c)),
                prize_amount,
                numbers,
            };
            let ghost before = out@.map_values(|s: ReportSection| s@);
            let ghost sv = sec@;
            out.push(sec);
            assert(out@.map_values(|s: ReportSection| s@) =~= before.push(sv));
        }
        k += 1;
    }
    out
}

} // verus!
