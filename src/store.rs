//! The result store: draws keyed by their date and the winning numbers of
//! each draw, written with insert-or-ignore semantics.
use vstd::prelude::*;
use vstd::string::*;
use crate::text::{append_pad2, contains_text, pad2, text_contains, lemma_text_lt_irreflexive, lemma_text_lt_total, lemma_text_lt_transitive, text_less, text_lt};
use crate::dates::{date_key, format_date_for_api};
use crate::ingest::{draw_insert_of, parse_raw_document, raw_text_outcome, result_insert, IngestError};
use crate::types::{
    LotteryResult,
    DrawInsert, DrawInsertView, DrawRowView, LotteryResultRow, PrizeEntry, PrizeEntryView,
    PrizeNumberRow, PrizeRowView, StorageError,
};

verus! {

/// The draws, newest date first, and the winning numbers in the order they
/// were stored. Identifiers start at 1 and are never reused.
pub struct ResultStore {
    draws: Vec<LotteryResultRow>,
    prizes: Vec<PrizeNumberRow>,
    next_draw_id: i64,
    next_prize_id: i64,
}

/// The model of a [`ResultStore`].
pub struct StoreModel {
    pub draws: Seq<DrawRowView>,
    pub prizes: Seq<PrizeRowView>,
    pub next_draw_id: int,
    pub next_prize_id: int,
}

/// The models of a sequence of draw rows.
pub open spec fn draw_views(v: Seq<LotteryResultRow>) -> Seq<DrawRowView> {
    v.map_values(|r: LotteryResultRow| r@)
}

/// The models of a sequence of prize rows.
pub open spec fn prize_views(v: Seq<PrizeNumberRow>) -> Seq<PrizeRowView> {
    v.map_values(|r: PrizeNumberRow| r@)
}

impl View for ResultStore {
    type V = StoreModel;

    closed spec fn view(&self) -> StoreModel {
        StoreModel {
            draws: draw_views(self.draws@),
            prizes: prize_views(self.prizes@),
            next_draw_id: self.next_draw_id as int,
            next_prize_id: self.next_prize_id as int,
        }
    }
}

/// Draws strictly ordered by date, newest first (so no two share a date).
pub open spec fn sorted_desc(ds: Seq<DrawRowView>) -> bool {
    forall|i: int, j: int|
        0 <= i < j < ds.len() ==> #[trigger] text_lt(ds[j].draw_date, ds[i].draw_date)
}

/// Whether a draw with date `d` is stored.
pub open spec fn has_draw(ds: Seq<DrawRowView>, d: Seq<char>) -> bool {
    exists|k: int| 0 <= k < ds.len() && #[trigger] ds[k].draw_date == d
}

/// The stored draw with date `d`.
pub open spec fn draw_for(ds: Seq<DrawRowView>, d: Seq<char>) -> Option<DrawRowView> {
    if has_draw(ds, d) {
        Some(ds[choose|k: int| 0 <= k < ds.len() && #[trigger] ds[k].draw_date == d])
    } else {
        None
    }
}

/// Whether stored row `p` is the number `e` of draw `id`: the unique key of a
/// winning number is its draw, category, value and round.
pub open spec fn same_prize(p: PrizeRowView, id: int, e: PrizeEntryView) -> bool {
    &&& p.lottery_id == id
    &&& p.category == e.category
    &&& p.number_value == e.number_value
    &&& p.round_number == e.round_number
}

/// Whether a draw with id `id` is stored.
pub open spec fn has_draw_id(ds: Seq<DrawRowView>, id: int) -> bool {
    exists|i: int| 0 <= i < ds.len() && #[trigger] ds[i].id == id
}

/// Whether the number `e` of draw `id` is stored.
pub open spec fn has_prize(ps: Seq<PrizeRowView>, id: int, e: PrizeEntryView) -> bool {
    exists|k: int| 0 <= k < ps.len() && #[trigger] same_prize(ps[k], id, e)
}

/// Whether two stored numbers share their unique key.
pub open spec fn prize_twins(p: PrizeRowView, q: PrizeRowView) -> bool {
    &&& p.lottery_id == q.lottery_id
    &&& p.category == q.category
    &&& p.number_value == q.number_value
    &&& p.round_number == q.round_number
}

/// The store's invariant: draws strictly ordered by date, newest first;
/// distinct ids below the next free ones; each number belongs to a stored
/// draw; no two numbers share their key.
pub open spec fn store_wf(s: StoreModel) -> bool {
    &&& 1 <= s.next_draw_id <= i64::MAX
    &&& 1 <= s.next_prize_id <= i64::MAX
    &&& sorted_desc(s.draws)
    &&& forall|i: int| 0 <= i < s.draws.len() ==> 1 <= #[trigger] s.draws[i].id < s.next_draw_id
    &&& forall|i: int, j: int|
        0 <= i < j < s.draws.len() ==> #[trigger] s.draws[i].id != #[trigger] s.draws[j].id
    &&& forall|k: int| 0 <= k < s.prizes.len() ==> 1 <= #[trigger] s.prizes[k].id < s.next_prize_id
    &&& forall|k: int| 0 <= k < s.prizes.len() ==> has_draw_id(s.draws, #[trigger] s.prizes[k].lottery_id)
    &&& forall|k: int, l: int|
        0 <= k < l < s.prizes.len() ==> #[trigger] s.prizes[k].id != #[trigger] s.prizes[l].id
            && !prize_twins(s.prizes[k], s.prizes[l])
}

/// Where a draw dated `d` goes: after every draw with a later date.
pub open spec fn insert_pos(ds: Seq<DrawRowView>, d: Seq<char>) -> int
    decreases ds.len(),
{
    if ds.len() == 0 || !text_lt(d, ds[0].draw_date) {
        0
    } else {
        1 + insert_pos(ds.drop_first(), d)
    }
}

/// The store after inserting, or ignoring, the draw dated `d`.
pub open spec fn add_draw(s: StoreModel, d: Seq<char>, period: Seq<char>, created: Seq<char>) -> StoreModel {
    if has_draw(s.draws, d) {
        s
    } else {
        StoreModel {
            draws: s.draws.insert(
                insert_pos(s.draws, d),
                DrawRowView { id: s.next_draw_id, draw_date: d, period: period, created_at: created },
            ),
            prizes: s.prizes,
            next_draw_id: s.next_draw_id + 1,
            next_prize_id: s.next_prize_id,
        }
    }
}

/// The id that saving the draw dated `d` resolves to: the stored draw's, or
/// the next free one.
pub open spec fn saved_id(s: StoreModel, d: Seq<char>) -> int {
    match draw_for(s.draws, d) {
        Some(row) => row.id,
        None => s.next_draw_id,
    }
}

/// The store after inserting, or ignoring, the number `e` of draw `id`.
pub open spec fn add_prize(s: StoreModel, id: int, e: PrizeEntryView) -> StoreModel {
    if has_prize(s.prizes, id, e) {
        s
    } else {
        StoreModel {
            draws: s.draws,
            prizes: s.prizes.push(
                PrizeRowView {
                    id: s.next_prize_id,
                    lottery_id: id,
                    category: e.category,
                    prize_amount: e.prize_amount,
                    number_value: e.number_value,
                    round_number: e.round_number,
                },
            ),
            next_draw_id: s.next_draw_id,
            next_prize_id: s.next_prize_id + 1,
        }
    }
}

/// The store after inserting, or ignoring, the numbers `es` of draw `id` in order.
pub open spec fn add_prizes(s: StoreModel, id: int, es: Seq<PrizeEntryView>) -> StoreModel
    decreases es.len(),
{
    if es.len() == 0 {
        s
    } else {
        add_prize(add_prizes(s, id, es.drop_last()), id, es.last())
    }
}

/// The store after saving a draw: the draw is inserted or ignored, its id is
/// resolved, then each of its numbers is inserted or ignored.
pub open spec fn saved(s: StoreModel, plan: DrawInsertView, created: Seq<char>) -> StoreModel {
    add_prizes(
        add_draw(s, plan.draw_date, plan.period, created),
        saved_id(s, plan.draw_date),
        plan.prizes,
    )
}

/// Whether identifiers are left for a draw and all of its numbers.
pub open spec fn has_room(s: StoreModel, plan: DrawInsertView) -> bool {
    &&& s.next_draw_id < i64::MAX
    &&& s.next_prize_id + plan.prizes.len() <= i64::MAX
}

/// A draw dated `d` goes between the first and the last stored draw.
pub proof fn lemma_insert_pos_bound(ds: Seq<DrawRowView>, d: Seq<char>)
    ensures
        0 <= insert_pos(ds, d) <= ds.len(),
    decreases ds.len(),
{
    if ds.len() > 0 && text_lt(d, ds[0].draw_date) {
        lemma_insert_pos_bound(ds.drop_first(), d);
    }
}

/// After `add_draw` the draw is stored, and its id is the one `saved_id` resolved.
pub proof fn lemma_add_draw_stores(s: StoreModel, d: Seq<char>, period: Seq<char>, created: Seq<char>)
    ensures
        has_draw(add_draw(s, d, period, created).draws, d),
        saved_id(add_draw(s, d, period, created), d) == saved_id(s, d),
{
    if !has_draw(s.draws, d) {
        lemma_insert_pos_bound(s.draws, d);
        let pos = insert_pos(s.draws, d);
        let nd = add_draw(s, d, period, created).draws;
        assert(nd[pos].draw_date == d);
        let c = choose|k: int| 0 <= k < nd.len() && #[trigger] nd[k].draw_date == d;
        if c < pos {
            assert(nd[c] == s.draws[c]);
        } else if c > pos {
            assert(nd[c] == s.draws[c - 1]);
        }
    }
}

/// Adding numbers changes no draw, and keeps every number already stored.
pub proof fn lemma_add_prizes_frame(s: StoreModel, id: int, es: Seq<PrizeEntryView>)
    ensures
        add_prizes(s, id, es).draws == s.draws,
        add_prizes(s, id, es).next_draw_id == s.next_draw_id,
        s.prizes.len() <= add_prizes(s, id, es).prizes.len(),
        add_prizes(s, id, es).prizes.subrange(0, s.prizes.len() as int) == s.prizes,
    decreases es.len(),
{
    if es.len() > 0 {
        lemma_add_prizes_frame(s, id, es.drop_last());
        let t = add_prizes(s, id, es.drop_last());
        assert(add_prize(t, id, es.last()).prizes.subrange(0, s.prizes.len() as int)
            =~= t.prizes.subrange(0, s.prizes.len() as int));
    }
}

/// After adding numbers, each of them is stored.
pub proof fn lemma_add_prizes_covers(s: StoreModel, id: int, es: Seq<PrizeEntryView>, j: int)
    requires
        0 <= j < es.len(),
    ensures
        has_prize(add_prizes(s, id, es).prizes, id, es[j]),
    decreases es.len(),
{
    let t = add_prizes(s, id, es.drop_last());
    let u = add_prizes(s, id, es);
    if j < es.len() - 1 {
        lemma_add_prizes_covers(s, id, es.drop_last(), j);
        assert(es.drop_last()[j] == es[j]);
        let k = choose|k: int| 0 <= k < t.prizes.len() && #[trigger] same_prize(t.prizes[k], id, es[j]);
        assert(u.prizes[k] == t.prizes[k]);
        assert(same_prize(u.prizes[k], id, es[j]));
    } else if !has_prize(t.prizes, id, es.last()) {
        assert(same_prize(u.prizes[t.prizes.len() as int], id, es[j]));
    }
}

/// Adding numbers that are all stored already changes nothing.
pub proof fn lemma_add_prizes_present(s: StoreModel, id: int, es: Seq<PrizeEntryView>)
    requires
        forall|j: int| 0 <= j < es.len() ==> has_prize(s.prizes, id, #[trigger] es[j]),
    ensures
        add_prizes(s, id, es) == s,
    decreases es.len(),
{
    if es.len() > 0 {
        assert forall|j: int| 0 <= j < es.drop_last().len() implies has_prize(
            s.prizes,
            id,
            #[trigger] es.drop_last()[j],
        ) by {
            assert(es.drop_last()[j] == es[j]);
        }
        lemma_add_prizes_present(s, id, es.drop_last());
        assert(has_prize(s.prizes, id, es[es.len() - 1]));
    }
}

/// Saving the same draw a second time changes nothing: the rows, their ids
/// and the next free ids stay as the first save left them, whatever time the
/// second save is stamped with, and the second save resolves the same draw id.
pub proof fn lemma_save_idempotent(s: StoreModel, plan: DrawInsertView, c1: Seq<char>, c2: Seq<char>)
    ensures
        saved(saved(s, plan, c1), plan, c2) == saved(s, plan, c1),
        saved_id(saved(s, plan, c1), plan.draw_date) == saved_id(s, plan.draw_date),
{
    let d = plan.draw_date;
    let s1 = add_draw(s, d, plan.period, c1);
    let id = saved_id(s, d);
    let t = saved(s, plan, c1);
    lemma_add_draw_stores(s, d, plan.period, c1);
    lemma_add_prizes_frame(s1, id, plan.prizes);
    assert(t.draws == s1.draws);
    assert(add_draw(t, d, plan.period, c2) == t);
    assert(saved_id(t, d) == saved_id(s1, d));
    assert forall|j: int| 0 <= j < plan.prizes.len() implies has_prize(t.prizes, id, #[trigger] plan.prizes[j]) by {
        lemma_add_prizes_covers(s1, id, plan.prizes, j);
    }
    lemma_add_prizes_present(t, id, plan.prizes);
}

/// The store after saving `rs` in order, and whether every save had room;
/// the first save without room stops the sequence.
pub open spec fn save_all(s: StoreModel, rs: Seq<LotteryResult>, created: Seq<char>) -> (StoreModel, bool)
    decreases rs.len(),
{
    if rs.len() == 0 {
        (s, true)
    } else if !has_room(s, result_insert(rs[0])) {
        (s, false)
    } else {
        save_all(saved(s, result_insert(rs[0]), created), rs.drop_first(), created)
    }
}

/// Saving a draw keeps every draw already stored.
pub proof fn lemma_saved_keeps(s: StoreModel, plan: DrawInsertView, created: Seq<char>, d: Seq<char>)
    requires
        has_draw(s.draws, d),
    ensures
        has_draw(saved(s, plan, created).draws, d),
{
    let s1 = add_draw(s, plan.draw_date, plan.period, created);
    if !has_draw(s.draws, plan.draw_date) {
        lemma_insert_pos_bound(s.draws, plan.draw_date);
        let pos = insert_pos(s.draws, plan.draw_date);
        let w = choose|w: int| 0 <= w < s.draws.len() && #[trigger] s.draws[w].draw_date == d;
        if w < pos {
            assert(s1.draws[w] == s.draws[w]);
        } else {
            assert(s1.draws[w + 1] == s.draws[w]);
        }
    }
    lemma_add_prizes_frame(s1, saved_id(s, plan.draw_date), plan.prizes);
}

/// Saving a sequence of results keeps every draw already stored.
pub proof fn lemma_save_all_keeps(s: StoreModel, rs: Seq<LotteryResult>, created: Seq<char>, d: Seq<char>)
    requires
        has_draw(s.draws, d),
    ensures
        has_draw(save_all(s, rs, created).0.draws, d),
    decreases rs.len(),
{
    if rs.len() > 0 && has_room(s, result_insert(rs[0])) {
        lemma_saved_keeps(s, result_insert(rs[0]), created, d);
        lemma_save_all_keeps(saved(s, result_insert(rs[0]), created), rs.drop_first(), created, d);
    }
}

/// Where saving a sequence of results succeeds, the draw of every one of
/// them is stored afterwards.
pub proof fn lemma_save_all_stores(s: StoreModel, rs: Seq<LotteryResult>, created: Seq<char>)
    requires
        save_all(s, rs, created).1,
    ensures
        forall|i: int| 0 <= i < rs.len() ==> has_draw(save_all(s, rs, created).0.draws, #[trigger] rs[i].date@),
    decreases rs.len(),
{
    if rs.len() > 0 {
        let plan = result_insert(rs[0]);
        let s1 = saved(s, plan, created);
        lemma_save_all_stores(s1, rs.drop_first(), created);
        lemma_add_draw_stores(s, plan.draw_date, plan.period, created);
        lemma_add_prizes_frame(add_draw(s, plan.draw_date, plan.period, created), saved_id(s, plan.draw_date), plan.prizes);
        lemma_save_all_keeps(s1, rs.drop_first(), created, rs[0].date@);
        assert forall|i: int| 0 <= i < rs.len() implies has_draw(save_all(s, rs, created).0.draws, #[trigger] rs[i].date@) by {
            if i > 0 {
                assert(rs.drop_first()[i - 1] == rs[i]);
            }
        }
    }
}

/// The canonical key of a requested `(day, month, year)`.
pub open spec fn request_key(t: (String, String, String)) -> Seq<char> {
    date_key(t.0@, t.1@, t.2@)
}

/// The requests whose draw is not stored, in request order.
pub open spec fn to_fetch(ds: Seq<DrawRowView>, reqs: Seq<(String, String, String)>) -> Seq<(String, String, String)>
    decreases reqs.len(),
{
    if reqs.len() == 0 {
        Seq::empty()
    } else if has_draw(ds, request_key(reqs.last())) {
        to_fetch(ds, reqs.drop_last())
    } else {
        to_fetch(ds, reqs.drop_last()).push(reqs.last())
    }
}

/// The keys of the requests whose draw is stored, in request order.
pub open spec fn already_stored(ds: Seq<DrawRowView>, reqs: Seq<(String, String, String)>) -> Seq<Seq<char>>
    decreases reqs.len(),
{
    if reqs.len() == 0 {
        Seq::empty()
    } else if has_draw(ds, request_key(reqs.last())) {
        already_stored(ds, reqs.drop_last()).push(request_key(reqs.last()))
    } else {
        already_stored(ds, reqs.drop_last())
    }
}

/// Partitioning requests by existence: every request to fetch has no stored
/// draw and comes from the requests; every stored key has a stored draw and
/// is the key of a request; every request lands on one side, no key is on
/// both, and the two sides together are exactly as many as the requests.
pub proof fn lemma_partition(ds: Seq<DrawRowView>, reqs: Seq<(String, String, String)>)
    ensures
        to_fetch(ds, reqs).len() + already_stored(ds, reqs).len() == reqs.len(),
        forall|k: int| 0 <= k < to_fetch(ds, reqs).len() ==> !has_draw(ds, request_key(#[trigger] to_fetch(ds, reqs)[k]))
            && reqs.contains(to_fetch(ds, reqs)[k]),
        forall|k: int| 0 <= k < already_stored(ds, reqs).len() ==> has_draw(ds, #[trigger] already_stored(ds, reqs)[k])
            && exists|j: int| 0 <= j < reqs.len() && request_key(#[trigger] reqs[j]) == already_stored(ds, reqs)[k],
        forall|j: int| 0 <= j < reqs.len() ==> (to_fetch(ds, reqs).contains(#[trigger] reqs[j])
            || already_stored(ds, reqs).contains(request_key(reqs[j]))),
        forall|k: int, l: int|
            0 <= k < to_fetch(ds, reqs).len() && 0 <= l < already_stored(ds, reqs).len() ==> request_key(
                #[trigger] to_fetch(ds, reqs)[k],
            ) != #[trigger] already_stored(ds, reqs)[l],
    decreases reqs.len(),
{
    if reqs.len() > 0 {
        let prev = reqs.drop_last();
        lemma_partition(ds, prev);
        let f = to_fetch(ds, reqs);
        let a = already_stored(ds, reqs);
        let fp = to_fetch(ds, prev);
        let ap = already_stored(ds, prev);
        assert forall|k: int| 0 <= k < f.len() implies !has_draw(ds, request_key(#[trigger] f[k])) && reqs.contains(f[k]) by {
            if k < fp.len() {
                assert(f[k] == fp[k]);
                let j = choose|j: int| 0 <= j < prev.len() && prev[j] == fp[k];
                assert(reqs[j] == prev[j]);
            } else {
                assert(reqs[reqs.len() - 1] == f[k]);
            }
        }
        assert forall|k: int| 0 <= k < a.len() implies has_draw(ds, #[trigger] a[k]) && exists|j: int|
            0 <= j < reqs.len() && request_key(#[trigger] reqs[j]) == a[k] by {
            if k < ap.len() {
                assert(a[k] == ap[k]);
                let j = choose|j: int| 0 <= j < prev.len() && request_key(#[trigger] prev[j]) == ap[k];
                assert(reqs[j] == prev[j]);
            } else {
                assert(request_key(reqs[reqs.len() - 1]) == a[k]);
            }
        }
        assert forall|j: int| 0 <= j < reqs.len() implies (f.contains(#[trigger] reqs[j]) || a.contains(request_key(reqs[j]))) by {
            if j < prev.len() {
                assert(reqs[j] == prev[j]);
                if fp.contains(prev[j]) {
                    let k = choose|k: int| 0 <= k < fp.len() && fp[k] == prev[j];
                    assert(f[k] == fp[k]);
                } else {
                    let k = choose|k: int| 0 <= k < ap.len() && ap[k] == request_key(prev[j]);
                    assert(a[k] == ap[k]);
                }
            } else {
                if has_draw(ds, request_key(reqs.last())) {
                    assert(a[a.len() - 1] == request_key(reqs[j]));
                } else {
                    assert(f[f.len() - 1] == reqs[j]);
                }
            }
        }
    }
}

/// The text of an optional bound.
pub open spec fn opt_text(o: Option<&str>) -> Option<Seq<char>> {
    match o {
        Some(t) => Some(t@),
        None => None,
    }
}

/// Whether date `d` lies in a window: not before `lo` and not after `hi`,
/// each where given.
pub open spec fn in_window(d: Seq<char>, lo: Option<Seq<char>>, hi: Option<Seq<char>>) -> bool {
    &&& match lo {
        Some(l) => !text_lt(d, l),
        None => true,
    }
    &&& match hi {
        Some(h) => !text_lt(h, d),
        None => true,
    }
}

/// The draws whose date lies in a window, in stored order.
pub open spec fn window(ds: Seq<DrawRowView>, lo: Option<Seq<char>>, hi: Option<Seq<char>>) -> Seq<DrawRowView>
    decreases ds.len(),
{
    if ds.len() == 0 {
        Seq::empty()
    } else if in_window(ds.last().draw_date, lo, hi) {
        window(ds.drop_last(), lo, hi).push(ds.last())
    } else {
        window(ds.drop_last(), lo, hi)
    }
}

/// The first `limit` items, or all where no limit is given or there are fewer.
pub open spec fn capped<A>(s: Seq<A>, limit: Option<int>) -> Seq<A> {
    match limit {
        Some(n) => if n < s.len() { s.subrange(0, n) } else { s },
        None => s,
    }
}

/// A row limit: a negative one means no limit.
pub open spec fn limit_of(limit: Option<i32>) -> Option<int> {
    match limit {
        Some(n) => if n < 0 { None } else { Some(n as int) },
        None => None,
    }
}

/// Whether a stored number belongs to draw `id`, is in category `cat` where
/// given, and holds `needle` where given.
pub open spec fn prize_match(p: PrizeRowView, id: int, cat: Option<Seq<char>>, needle: Option<Seq<char>>) -> bool {
    &&& p.lottery_id == id
    &&& match cat {
        Some(c) => p.category == c,
        None => true,
    }
    &&& match needle {
        Some(n) => text_contains(p.number_value, n),
        None => true,
    }
}

/// The stored numbers that match, in stored order.
pub open spec fn prizes_matching(
    ps: Seq<PrizeRowView>,
    id: int,
    cat: Option<Seq<char>>,
    needle: Option<Seq<char>>,
) -> Seq<PrizeRowView>
    decreases ps.len(),
{
    if ps.len() == 0 {
        Seq::empty()
    } else if prize_match(ps.last(), id, cat, needle) {
        prizes_matching(ps.drop_last(), id, cat, needle).push(ps.last())
    } else {
        prizes_matching(ps.drop_last(), id, cat, needle)
    }
}

/// Whether number `a` may come before `b`: by category in text order, then
/// by round, where `by_category`; by round alone otherwise.
pub open spec fn prize_le(a: PrizeRowView, b: PrizeRowView, by_category: bool) -> bool {
    if by_category {
        text_lt(a.category, b.category) || (a.category == b.category && a.round_number <= b.round_number)
    } else {
        a.round_number <= b.round_number
    }
}

/// Whether numbers are ordered by [`prize_le`].
pub open spec fn prize_sorted(s: Seq<PrizeRowView>, by_category: bool) -> bool {
    forall|i: int, j: int| 0 <= i < j < s.len() ==> #[trigger] prize_le(s[i], s[j], by_category)
}

/// Of any two numbers one may come before the other.
pub proof fn lemma_prize_le_total(a: PrizeRowView, b: PrizeRowView, by_category: bool)
    ensures
        prize_le(a, b, by_category) || prize_le(b, a, by_category),
{
    if by_category {
        lemma_text_lt_total(a.category, b.category);
    }
}

/// The order on numbers is transitive.
pub proof fn lemma_prize_le_transitive(a: PrizeRowView, b: PrizeRowView, c: PrizeRowView, by_category: bool)
    requires
        prize_le(a, b, by_category),
        prize_le(b, c, by_category),
    ensures
        prize_le(a, c, by_category),
{
    if by_category && text_lt(a.category, b.category) && text_lt(b.category, c.category) {
        lemma_text_lt_transitive(a.category, b.category, c.category);
    }
}

/// Whether `out` holds the numbers of category `c`, draw by draw from the
/// newest, each draw's numbers ordered by round (equal rounds in any order).
pub open spec fn grouped_by_draw(ds: Seq<DrawRowView>, ps: Seq<PrizeRowView>, c: Seq<char>, out: Seq<PrizeRowView>) -> bool
    decreases ds.len(),
{
    if ds.len() == 0 {
        out.len() == 0
    } else {
        let seg = prizes_matching(ps, ds.last().id, Some(c), None);
        let cut = out.len() - seg.len();
        &&& 0 <= cut
        &&& out.subrange(cut, out.len() as int).to_multiset() == seg.to_multiset()
        &&& prize_sorted(out.subrange(cut, out.len() as int), false)
        &&& grouped_by_draw(ds.drop_last(), ps, c, out.subrange(0, cut))
    }
}

/// The numbers holding `needle`, each with its draw, draw by draw from the newest.
pub open spec fn search_pairs(ds: Seq<DrawRowView>, ps: Seq<PrizeRowView>, needle: Seq<char>) -> Seq<(DrawRowView, PrizeRowView)>
    decreases ds.len(),
{
    if ds.len() == 0 {
        Seq::empty()
    } else {
        search_pairs(ds.drop_last(), ps, needle) + prizes_matching(ps, ds.last().id, None, Some(needle)).map_values(
            |p: PrizeRowView| (ds.last(), p),
        )
    }
}

/// The models of a sequence of (draw, number) pairs.
pub open spec fn pair_views(v: Seq<(LotteryResultRow, PrizeNumberRow)>) -> Seq<(DrawRowView, PrizeRowView)> {
    v.map_values(|x: (LotteryResultRow, PrizeNumberRow)| (x.0@, x.1@))
}

/// The first and last key of a year: `YYYY-01-01` and `YYYY-12-31`.
pub open spec fn year_bounds(year: Seq<char>) -> (Seq<char>, Seq<char>) {
    (year + "-01-01"@, year + "-12-31"@)
}

/// The first and last key of a month: `YYYY-MM-01` and `YYYY-MM-31`, the
/// month left-padded with `'0'`.
pub open spec fn month_bounds(year: Seq<char>, month: Seq<char>) -> (Seq<char>, Seq<char>) {
    (year + seq!['-'] + pad2(month) + "-01"@, year + seq!['-'] + pad2(month) + "-31"@)
}

/// Whether a draw row read back from storage fits the store: its id is in
/// range and free, and its date is not stored.
pub open spec fn can_restore_draw(s: StoreModel, row: DrawRowView) -> bool {
    &&& 1 <= row.id < i64::MAX
    &&& forall|k: int| 0 <= k < s.draws.len() ==> #[trigger] s.draws[k].id != row.id
    &&& !has_draw(s.draws, row.draw_date)
}

/// The store after adding a draw row read back from storage.
pub open spec fn restored_draw(s: StoreModel, row: DrawRowView) -> StoreModel {
    StoreModel {
        draws: s.draws.insert(insert_pos(s.draws, row.draw_date), row),
        next_draw_id: if row.id >= s.next_draw_id { row.id + 1 } else { s.next_draw_id },
        ..s
    }
}

/// Whether a number row read back from storage fits the store: its id is in
/// range and free, its draw is stored, and its key is not.
pub open spec fn can_restore_prize(s: StoreModel, row: PrizeRowView) -> bool {
    &&& 1 <= row.id < i64::MAX
    &&& forall|k: int| 0 <= k < s.prizes.len() ==> #[trigger] s.prizes[k].id != row.id
    &&& has_draw_id(s.draws, row.lottery_id)
    &&& forall|k: int| 0 <= k < s.prizes.len() ==> !prize_twins(#[trigger] s.prizes[k], row)
}

/// The store after adding a number row read back from storage.
pub open spec fn restored_prize(s: StoreModel, row: PrizeRowView) -> StoreModel {
    StoreModel {
        prizes: s.prizes.push(row),
        next_prize_id: if row.id >= s.next_prize_id { row.id + 1 } else { s.next_prize_id },
        ..s
    }
}

impl ResultStore {
    /// An empty store.
    pub fn new() -> (r: ResultStore)
        ensures
            store_wf(r@),
            r@.draws.len() == 0,
            r@.prizes.len() == 0,
            r@.next_draw_id == 1,
            r@.next_prize_id == 1,
    {
        let r = ResultStore { draws: Vec::new(), prizes: Vec::new(), next_draw_id: 1, next_prize_id: 1 };
        assert(r@.draws =~= Seq::<DrawRowView>::empty());
        assert(r@.prizes =~= Seq::<PrizeRowView>::empty());
        r
    }

    /// The store's invariant.
    pub open spec fn wf(&self) -> bool {
        store_wf(self@)
    }

    /// Finds where the draw dated `date` is, or would go.
    fn locate(&self, date: &str) -> (r: (usize, bool))
        requires
            self.wf(),
        ensures
            r.0 == insert_pos(self@.draws, date@),
            r.0 <= self@.draws.len(),
            r.1 == has_draw(self@.draws, date@),
            r.1 ==> r.0 < self@.draws.len() && self@.draws[r.0 as int].draw_date == date@
                && draw_for(self@.draws, date@) == Some(self@.draws[r.0 as int]),
            forall|k: int| 0 <= k < r.0 ==> text_lt(date@, #[trigger] self@.draws[k].draw_date),
            !r.1 ==> forall|k: int|
                r.0 <= k < self@.draws.len() ==> text_lt(#[trigger] self@.draws[k].draw_date, date@),
    {
        let ghost ds = self@.draws;
        let mut i: usize = 0;
        assert(ds.skip(0) =~= ds);
        while i < self.draws.len() && text_less(date, self.draws[i].draw_date.as_str())
            invariant
                0 <= i <= ds.len(),
                ds == self@.draws,
                ds.len() == self.draws@.len(),
                forall|k: int| 0 <= k < i ==> text_lt(date@, #[trigger] ds[k].draw_date),
                insert_pos(ds, date@) == i + insert_pos(ds.skip(i as int), date@),
            decreases ds.len() - i,
        {
            assert(ds.skip(i as int)[0] == ds[i as int]);
            assert(ds.skip(i as int).drop_first() =~= ds.skip(i + 1));
            i += 1;
        }
        proof {
            if i < ds.len() {
                assert(ds.skip(i as int)[0] == ds[i as int]);
            } else {
                assert(ds.skip(i as int).len() == 0);
            }
            lemma_text_lt_irreflexive(date@);
        }
        let key = String::from_str(date);
        let found = i < self.draws.len() && self.draws[i].draw_date == key;
        proof {
            if found {
                assert(has_draw(ds, date@));
                let c = choose|k: int| 0 <= k < ds.len() && #[trigger] ds[k].draw_date == date@;
                if c < i {
                    assert(text_lt(ds[i as int].draw_date, ds[c].draw_date));
                } else if c > i {
                    assert(text_lt(ds[c].draw_date, ds[i as int].draw_date));
                }
            } else {
                if i < ds.len() {
                    lemma_text_lt_total(ds[i as int].draw_date, date@);
                    assert forall|k: int| i <= k < ds.len() implies text_lt(#[trigger] ds[k].draw_date, date@) by {
                        if k > i {
                            assert(text_lt(ds[k].draw_date, ds[i as int].draw_date));
                            lemma_text_lt_transitive(ds[k].draw_date, ds[i as int].draw_date, date@);
                        }
                    }
                }
                assert forall|k: int| 0 <= k < ds.len() implies #[trigger] ds[k].draw_date != date@ by {
                    if k < i {
                        assert(text_lt(date@, ds[k].draw_date));
                    } else {
                        assert(text_lt(ds[k].draw_date, date@));
                    }
                }
            }
        }
        (i, found)
    }

    /// Whether a draw dated `date` is stored.
    pub fn lottery_exists_for_date(&self, date: &str) -> (r: bool)
        requires
            self.wf(),
        ensures
            r == has_draw(self@.draws, date@),
    {
        self.locate(date).1
    }

    /// Puts a draw row at position `i`, where its date belongs.
    fn place_draw(&mut self, i: usize, row: LotteryResultRow)
        requires
            old(self).wf(),
            i == insert_pos(old(self)@.draws, row@.draw_date),
            i <= old(self)@.draws.len(),
            forall|k: int| 0 <= k < i ==> text_lt(row@.draw_date, #[trigger] old(self)@.draws[k].draw_date),
            forall|k: int|
                i <= k < old(self)@.draws.len() ==> text_lt(#[trigger] old(self)@.draws[k].draw_date, row@.draw_date),
            1 <= row.id < i64::MAX,
            forall|k: int| 0 <= k < old(self)@.draws.len() ==> #[trigger] old(self)@.draws[k].id != row.id,
        ensures
            final(self).wf(),
            final(self)@ == (StoreModel {
                draws: old(self)@.draws.insert(i as int, row@),
                next_draw_id: if row.id >= old(self)@.next_draw_id { row.id + 1 } else { old(self)@.next_draw_id },
                ..old(self)@
            }),
    {
        let ghost s = self@;
        let ghost rv = row@;
        let ghost date = row@.draw_date;
        let rid = row.id;
        self.draws.insert(i, row);
        if rid >= self.next_draw_id {
            self.next_draw_id = rid + 1;
        }
        proof {
            let nd = self@.draws;
            assert(nd =~= s.draws.insert(i as int, rv));
            assert forall|a: int, b: int| 0 <= a < b < nd.len() implies #[trigger] text_lt(
                nd[b].draw_date,
                nd[a].draw_date,
            ) by {
                if b < i {
                } else if b == i {
                    assert(text_lt(date, s.draws[a].draw_date));
                } else if a == i {
                    assert(text_lt(s.draws[b - 1].draw_date, date));
                } else if a < i {
                    assert(text_lt(s.draws[b - 1].draw_date, s.draws[a].draw_date));
                } else {
                    assert(text_lt(s.draws[b - 1].draw_date, s.draws[a - 1].draw_date));
                }
            }
            assert forall|a: int, b: int| 0 <= a < b < nd.len() implies #[trigger] nd[a].id != #[trigger] nd[b].id by {
                if a < i && b > i {
                    assert(s.draws[b - 1].id != s.draws[a].id);
                } else if a > i {
                    assert(s.draws[b - 1].id != s.draws[a - 1].id);
                } else if a == i {
                    assert(s.draws[b - 1].id != rv.id);
                } else if b == i {
                    assert(s.draws[a].id != rv.id);
                }
            }
            assert forall|a: int| 0 <= a < nd.len() implies 1 <= #[trigger] nd[a].id < self@.next_draw_id by {
                if a < i {
                    assert(nd[a] == s.draws[a]);
                } else if a > i {
                    assert(nd[a] == s.draws[a - 1]);
                }
            }
            assert forall|k: int| 0 <= k < s.prizes.len() implies has_draw_id(nd, #[trigger] s.prizes[k].lottery_id) by {
                let w = choose|w: int| 0 <= w < s.draws.len() && #[trigger] s.draws[w].id == s.prizes[k].lottery_id;
                if w < i {
                    assert(nd[w] == s.draws[w]);
                } else {
                    assert(nd[w + 1] == s.draws[w]);
                }
            }
        }
    }

    /// Inserts, or ignores, the draw dated `date`; returns its id.
    fn insert_draw(&mut self, date: &String, period: &String, created_at: &str) -> (id: i64)
        requires
            old(self).wf(),
            old(self)@.next_draw_id < i64::MAX,
        ensures
            final(self).wf(),
            final(self)@ == add_draw(old(self)@, date@, period@, created_at@),
            id == saved_id(old(self)@, date@),
            has_draw_id(final(self)@.draws, id as int),
    {
        let (i, found) = self.locate(date.as_str());
        if found {
            assert(self@.draws[i as int].id == self.draws@[i as int].id);
            return self.draws[i].id;
        }
        let ghost s = self@;
        let id = self.next_draw_id;
        let row = LotteryResultRow {
            id,
            draw_date: date.clone(),
            period: period.clone(),
            created_at: String::from_str(created_at),
        };
        self.place_draw(i, row);
        assert(self@ == add_draw(s, date@, period@, created_at@));
        assert(self@.draws[i as int].id == id);
        id
    }

    /// Adds a draw row read back from persistent storage, keeping its id.
    /// Refused, changing nothing, where its id is out of range or taken, or
    /// its date is stored already.
    pub fn restore_draw(&mut self, row: LotteryResultRow) -> (r: Result<(), StorageError>)
        requires
            old(self).wf(),
        ensures
            final(self).wf(),
            r is Ok <==> can_restore_draw(old(self)@, row@),
            r is Ok ==> final(self)@ == restored_draw(old(self)@, row@),
            r is Err ==> r == Err::<(), StorageError>(StorageError::Conflict) && final(self)@ == old(self)@,
    {
        if row.id < 1 || row.id == i64::MAX {
            return Err(StorageError::Conflict);
        }
        let mut k: usize = 0;
        while k < self.draws.len()
            invariant
                0 <= k <= self@.draws.len(),
                self.wf(),
                self@ == old(self)@,
                self@.draws.len() == self.draws@.len(),
                forall|t: int| 0 <= t < k ==> #[trigger] self@.draws[t].id != row.id,
            decreases self@.draws.len() - k,
        {
            assert(self@.draws[k as int].id == self.draws@[k as int].id);
            if self.draws[k].id == row.id {
                return Err(StorageError::Conflict);
            }
            k += 1;
        }
        let (i, found) = self.locate(row.draw_date.as_str());
        if found {
            return Err(StorageError::Conflict);
        }
        self.place_draw(i, row);
        Ok(())
    }

    /// Inserts, or ignores, the number `e` of draw `id`.
    fn insert_prize(&mut self, id: i64, e: &PrizeEntry)
        requires
            old(self).wf(),
            old(self)@.next_prize_id < i64::MAX,
            has_draw_id(old(self)@.draws, id as int),
        ensures
            final(self).wf(),
            final(self)@ == add_prize(old(self)@, id as int, e@),
    {
        let ghost s = self@;
        let mut k: usize = 0;
        while k < self.prizes.len()
            invariant
                0 <= k <= s.prizes.len(),
                s == self@,
                store_wf(s),
                s.prizes.len() == self.prizes@.len(),
                forall|t: int| 0 <= t < k ==> !#[trigger] same_prize(s.prizes[t], id as int, e@),
            decreases s.prizes.len() - k,
        {
            let p = &self.prizes[k];
            if p.lottery_id == id && p.category == e.category && p.number_value == e.number_value
                && p.round_number == e.round_number {
                assert(same_prize(s.prizes[k as int], id as int, e@));
                return;
            }
            k += 1;
        }
        let row = PrizeNumberRow {
            id: self.next_prize_id,
            lottery_id: id,
            category: e.category.clone(),
            prize_amount: e.prize_amount.clone(),
            number_value: e.number_value.clone(),
            round_number: e.round_number,
        };
        let ghost rv = row@;
        self.prizes.push(row);
        self.next_prize_id = self.next_prize_id + 1;
        proof {
            assert(self@.prizes =~= s.prizes.push(rv));
            assert(self@.draws == s.draws);
            assert(self@ == add_prize(s, id as int, e@));
            let np = self@.prizes;
            assert forall|a: int, b: int| 0 <= a < b < np.len() implies #[trigger] np[a].id != #[trigger] np[b].id
                && !prize_twins(np[a], np[b]) by {
                if b == s.prizes.len() {
                    assert(!same_prize(s.prizes[a], id as int, e@));
                    assert(s.prizes[a].id < s.next_prize_id);
                }
            }
        }
    }

    /// Saves a draw: inserts or ignores it, resolves its id, then inserts or
    /// ignores each of its numbers. Fails, changing nothing, where
    /// identifiers would run out.
    pub fn save_draw(&mut self, plan: &DrawInsert, created_at: &str) -> (r: Result<i64, StorageError>)
        requires
            old(self).wf(),
        ensures
            final(self).wf(),
            r is Ok <==> has_room(old(self)@, plan@),
            match r {
                Ok(id) => id == saved_id(old(self)@, plan@.draw_date) && final(self)@ == saved(
                    old(self)@,
                    plan@,
                    created_at@,
                ),
                Err(e) => e == StorageError::IdsExhausted && final(self)@ == old(self)@,
            },
    {
        if !(self.next_draw_id < i64::MAX && ((i64::MAX - self.next_prize_id) as u64) >= (plan.prizes.len() as u64)) {
            return Err(StorageError::IdsExhausted);
        }
        let ghost s0 = self@;
        let ghost es = plan@.prizes;
        let id = self.insert_draw(&plan.draw_date, &plan.period, created_at);
        let ghost s1 = self@;
        let mut i: usize = 0;
        assert(es.take(0) =~= Seq::<PrizeEntryView>::empty());
        while i < plan.prizes.len()
            invariant
                0 <= i <= es.len(),
                es.len() == plan.prizes@.len(),
                es == plan@.prizes,
                self.wf(),
                self@ == add_prizes(s1, id as int, es.take(i as int)),
                self@.draws == s1.draws,
                has_draw_id(s1.draws, id as int),
                self@.next_prize_id <= s1.next_prize_id + i,
                s1.next_prize_id + es.len() <= i64::MAX,
            decreases es.len() - i,
        {
            assert(es.take(i + 1).drop_last() =~= es.take(i as int));
            assert(es.take(i + 1).last() == es[i as int]);
            assert(plan.prizes@[i as int]@ == es[i as int]);
            self.insert_prize(id, &plan.prizes[i]);
            i += 1;
        }
        assert(es.take(es.len() as int) =~= es);
        Ok(id)
    }

    /// Saves a normalised result; see [`ResultStore::save_draw`] and [`result_insert`].
    pub fn save_lottery_result(&mut self, result: &LotteryResult, created_at: &str) -> (r: Result<i64, StorageError>)
        requires
            old(self).wf(),
        ensures
            final(self).wf(),
            r is Ok <==> has_room(old(self)@, result_insert(*result)),
            match r {
                Ok(id) => id == saved_id(old(self)@, result.date@) && final(self)@ == saved(
                    old(self)@,
                    result_insert(*result),
                    created_at@,
                ),
                Err(e) => e == StorageError::IdsExhausted && final(self)@ == old(self)@,
            },
    {
        let plan = draw_insert_of(result);
        self.save_draw(&plan, created_at)
    }

    /// Saves results in order, stopping at the first that fails.
    pub fn save_multiple_lottery_results(&mut self, results: &Vec<LotteryResult>, created_at: &str) -> (r: Result<(), StorageError>)
        requires
            old(self).wf(),
        ensures
            final(self).wf(),
            final(self)@ == save_all(old(self)@, results@, created_at@).0,
            r is Ok <==> save_all(old(self)@, results@, created_at@).1,
            r is Err ==> r == Err::<(), StorageError>(StorageError::IdsExhausted),
    {
        let ghost s0 = self@;
        let ghost rs = results@;
        let mut i: usize = 0;
        assert(rs.skip(0) =~= rs);
        while i < results.len()
            invariant
                0 <= i <= rs.len(),
                rs == results@,
                s0 == old(self)@,
                self.wf(),
                save_all(s0, rs, created_at@) == save_all(self@, rs.skip(i as int), created_at@),
            decreases rs.len() - i,
        {
            assert(rs.skip(i as int)[0] == rs[i as int]);
            assert(rs.skip(i as int).drop_first() =~= rs.skip(i + 1));
            let ghost pre = self@;
            match self.save_lottery_result(&results[i], created_at) {
                Ok(_) => {},
                Err(e) => {
                    assert(!has_room(pre, result_insert(rs.skip(i as int)[0])));
                    assert(save_all(pre, rs.skip(i as int), created_at@) == (pre, false));
                    return Err(e);
                },
            }
            i += 1;
        }
        assert(rs.skip(i as int).len() == 0);
        Ok(())
    }

    /// Parses a raw result document and saves the draw it describes; returns
    /// the draw's id. A document that is not JSON, not accepted or missing a
    /// required member is refused with nothing stored.
    pub fn parse_and_insert_raw_json(&mut self, raw_json: &str, created_at: &str) -> (r: Result<i64, IngestError>)
        requires
            old(self).wf(),
        ensures
            final(self).wf(),
            match raw_text_outcome(raw_json@) {
                Err(e) => r == Err::<i64, IngestError>(e) && final(self)@ == old(self)@,
                Ok(plan) => if has_room(old(self)@, plan) {
                    r is Ok && r->Ok_0 == saved_id(old(self)@, plan.draw_date)
                        && final(self)@ == saved(old(self)@, plan, created_at@)
                } else {
                    r == Err::<i64, IngestError>(IngestError::Storage(StorageError::IdsExhausted))
                        && final(self)@ == old(self)@
                },
            },
    {
        let plan = match parse_raw_document(raw_json) {
            Ok(p) => p,
            Err(e) => {
                return Err(e);
            },
        };
        match self.save_draw(&plan, created_at) {
            Ok(id) => Ok(id),
            Err(e) => Err(IngestError::Storage(e)),
        }
    }

    /// Splits requested `(day, month, year)` dates into those whose draw is
    /// not stored, as given and in order, and the keys of those whose draw is.
    pub fn check_existing_dates(&self, dates: &Vec<(String, String, String)>) -> (r: (Vec<(String, String, String)>, Vec<String>))
        requires
            self.wf(),
        ensures
            r.0@ == to_fetch(self@.draws, dates@),
            r.1@.map_values(|k: String| k@) == already_stored(self@.draws, dates@),
    {
        let mut fetch: Vec<(String, String, String)> = Vec::new();
        let mut stored: Vec<String> = Vec::new();
        let mut i: usize = 0;
        assert(dates@.subrange(0, 0) =~= Seq::<(String, String, String)>::empty());
        assert(stored@.map_values(|k: String| k@) =~= Seq::<Seq<char>>::empty());
        while i < dates.len()
            invariant
                0 <= i <= dates@.len(),
                self.wf(),
                fetch@ == to_fetch(self@.draws, dates@.subrange(0, i as int)),
                stored@.map_values(|k: String| k@) == already_stored(self@.draws, dates@.subrange(0, i as int)),
            decreases dates@.len() - i,
        {
            let t = &dates[i];
            let key = format_date_for_api(t.0.as_str(), t.1.as_str(), t.2.as_str());
            assert(dates@.subrange(0, i + 1).drop_last() =~= dates@.subrange(0, i as int));
            assert(dates@.subrange(0, i + 1).last() == dates@[i as int]);
            if self.lottery_exists_for_date(key.as_str()) {
                let ghost before = stored@;
                let ghost kv = key@;
                stored.push(key);
                assert(stored@.map_values(|k: String| k@) =~= before.map_values(|k: String| k@).push(kv));
            } else {
                fetch.push((t.0.clone(), t.1.clone(), t.2.clone()));
            }
            i += 1;
        }
        assert(dates@.subrange(0, dates@.len() as int) =~= dates@);
        (fetch, stored)
    }

    fn draws_in_window(&self, lo: Option<&str>, hi: Option<&str>, limit: Option<usize>) -> (r: Vec<LotteryResultRow>)
        requires
            self.wf(),
        ensures
            draw_views(r@) == capped(
                window(self@.draws, opt_text(lo), opt_text(hi)),
                match limit {
                    Some(n) => Some(n as int),
                    None => None,
                },
            ),
    {
        let ghost ds = self@.draws;
        let mut out: Vec<LotteryResultRow> = Vec::new();
        let mut i: usize = 0;
        assert(ds.subrange(0, 0) =~= Seq::<DrawRowView>::empty());
        assert(draw_views(out@) =~= Seq::<DrawRowView>::empty());
        while i < self.draws.len()
            invariant
                0 <= i <= ds.len(),
                ds == self@.draws,
                ds.len() == self.draws@.len(),
                draw_views(out@) == window(ds.subrange(0, i as int), opt_text(lo), opt_text(hi)),
            decreases ds.len() - i,
        {
            let row = &self.draws[i];
            assert(ds.subrange(0, i + 1).drop_last() =~= ds.subrange(0, i as int));
            assert(ds.subrange(0, i + 1).last() == ds[i as int]);
            assert(ds[i as int] == row@);
            let after_lo = match lo {
                Some(l) => !text_less(row.draw_date.as_str(), l),
                None => true,
            };
            let before_hi = match hi {
                Some(h) => !text_less(h, row.draw_date.as_str()),
                None => true,
            };
            if after_lo && before_hi {
                let ghost before = out@;
                let copy = row.duplicate();
                out.push(copy);
                assert(draw_views(out@) =~= draw_views(before).push(row@));
            }
            i += 1;
        }
        assert(ds.subrange(0, ds.len() as int) =~= ds);
        match limit {
            Some(n) => {
                let ghost full = out@;
                out.truncate(n);
                assert(draw_views(out@) =~= capped(draw_views(full), Some(n as int)));
            },
            None => {},
        }
        out
    }

    /// All stored draws, newest first.
    pub fn get_all_lottery_results(&self) -> (r: Vec<LotteryResultRow>)
        requires
            self.wf(),
        ensures
            draw_views(r@) == self@.draws,
    {
        let r = self.draws_in_window(None, None, None);
        proof { lemma_window_all(self@.draws); }
        r
    }

    /// The stored draw dated `date`.
    pub fn get_lottery_by_date(&self, date: &str) -> (r: Option<LotteryResultRow>)
        requires
            self.wf(),
        ensures
            match r {
                Some(row) => draw_for(self@.draws, date@) == Some(row@),
                None => draw_for(self@.draws, date@) is None,
            },
    {
        let (i, found) = self.locate(date);
        if found {
            Some(self.draws[i].duplicate())
        } else {
            None
        }
    }

    /// The newest `limit` draws, newest first; a negative limit means all.
    pub fn get_latest_lottery_results(&self, limit: i32) -> (r: Vec<LotteryResultRow>)
        requires
            self.wf(),
        ensures
            draw_views(r@) == capped(self@.draws, limit_of(Some(limit))),
    {
        let cap: Option<usize> = if limit < 0 { None } else { Some(limit as usize) };
        let r = self.draws_in_window(None, None, cap);
        proof { lemma_window_all(self@.draws); }
        r
    }

    /// The draws dated from `start_date` to `end_date`, both included, newest first.
    pub fn get_lottery_results_by_date_range(&self, start_date: &str, end_date: &str) -> (r: Vec<LotteryResultRow>)
        requires
            self.wf(),
        ensures
            draw_views(r@) == window(self@.draws, Some(start_date@), Some(end_date@)),
    {
        self.draws_in_window(Some(start_date), Some(end_date), None)
    }

    /// The draws of a year, newest first.
    pub fn get_lottery_results_by_year(&self, year: &str) -> (r: Vec<LotteryResultRow>)
        requires
            self.wf(),
        ensures
            draw_views(r@) == window(self@.draws, Some(year_bounds(year@).0), Some(year_bounds(year@).1)),
    {
        let mut start = String::from_str(year);
        start.append("-01-01");
        let mut end = String::from_str(year);
        end.append("-12-31");
        self.get_lottery_results_by_date_range(start.as_str(), end.as_str())
    }

    /// The draws of a month, newest first.
    pub fn get_lottery_results_by_month(&self, year: &str, month: &str) -> (r: Vec<LotteryResultRow>)
        requires
            self.wf(),
        ensures
            draw_views(r@) == window(
                self@.draws,
                Some(month_bounds(year@, month@).0),
                Some(month_bounds(year@, month@).1),
            ),
    {
        proof { reveal_strlit("-"); }
        let mut start = String::from_str(year);
        start.append("-");
        append_pad2(&mut start, month);
        let mut end = start.clone();
        start.append("-01");
        end.append("-31");
        assert(start@ =~= month_bounds(year@, month@).0);
        assert(end@ =~= month_bounds(year@, month@).1);
        self.get_lottery_results_by_date_range(start.as_str(), end.as_str())
    }

    /// The draws dated `date` or later, newest first, at most `limit` of them
    /// where a limit of 0 or more is given.
    pub fn get_lottery_results_after_date(&self, date: &str, limit: Option<i32>) -> (r: Vec<LotteryResultRow>)
        requires
            self.wf(),
        ensures
            draw_views(r@) == capped(window(self@.draws, Some(date@), None), limit_of(limit)),
    {
        let cap: Option<usize> = match limit {
            Some(n) => if n < 0 { None } else { Some(n as usize) },
            None => None,
        };
        self.draws_in_window(Some(date), None, cap)
    }

    /// The draws dated `date` or earlier, newest first, at most `limit` of
    /// them where a limit of 0 or more is given.
    pub fn get_lottery_results_before_date(&self, date: &str, limit: Option<i32>) -> (r: Vec<LotteryResultRow>)
        requires
            self.wf(),
        ensures
            draw_views(r@) == capped(window(self@.draws, None, Some(date@)), limit_of(limit)),
    {
        let cap: Option<usize> = match limit {
            Some(n) => if n < 0 { None } else { Some(n as usize) },
            None => None,
        };
        self.draws_in_window(None, Some(date), cap)
    }

    fn push_matching(&self, out: &mut Vec<PrizeNumberRow>, id: i64, cat: Option<&str>, needle: Option<&str>)
        requires
            self.wf(),
        ensures
            prize_views(final(out)@) == prize_views(old(out)@) + prizes_matching(
                self@.prizes,
                id as int,
                opt_text(cat),
                opt_text(needle),
            ),
    {
        let ghost ps = self@.prizes;
        let ghost start = prize_views(out@);
        let has_cat = cat.is_some();
        let cat_key = match cat {
            Some(c) => String::from_str(c),
            None => String::new(),
        };
        let mut k: usize = 0;
        assert(ps.subrange(0, 0) =~= Seq::<PrizeRowView>::empty());
        assert(prize_views(out@) =~= start + Seq::<PrizeRowView>::empty());
        while k < self.prizes.len()
            invariant
                0 <= k <= ps.len(),
                ps == self@.prizes,
                ps.len() == self.prizes@.len(),
                start == prize_views(old(out)@),
                has_cat == cat is Some,
                match cat {
                    Some(c) => cat_key@ == c@,
                    None => true,
                },
                prize_views(out@) == start + prizes_matching(
                    ps.subrange(0, k as int),
                    id as int,
                    opt_text(cat),
                    opt_text(needle),
                ),
            decreases ps.len() - k,
        {
            let p = &self.prizes[k];
            assert(ps.subrange(0, k + 1).drop_last() =~= ps.subrange(0, k as int));
            assert(ps.subrange(0, k + 1).last() == ps[k as int]);
            assert(ps[k as int] == p@);
            let cat_ok = !has_cat || p.category == cat_key;
            let needle_ok = match needle {
                Some(n) => contains_text(p.number_value.as_str(), n),
                None => true,
            };
            if p.lottery_id == id && cat_ok && needle_ok {
                let ghost before = prize_views(out@);
                out.push(p.duplicate());
                assert(prize_views(out@) =~= before.push(p@));
            }
            k += 1;
        }
        assert(ps.subrange(0, ps.len() as int) =~= ps);
    }

    fn sorted_matching(&self, id: i64, cat: Option<&str>, by_category: bool) -> (r: Vec<PrizeNumberRow>)
        requires
            self.wf(),
        ensures
            prize_views(r@).to_multiset() == prizes_matching(self@.prizes, id as int, opt_text(cat), None).to_multiset(),
            prize_sorted(prize_views(r@), by_category),
    {
        let ghost ps = self@.prizes;
        let has_cat = cat.is_some();
        let cat_key = match cat {
            Some(c) => String::from_str(c),
            None => String::new(),
        };
        let mut out: Vec<PrizeNumberRow> = Vec::new();
        let mut k: usize = 0;
        assert(ps.subrange(0, 0) =~= Seq::<PrizeRowView>::empty());
        assert(prize_views(out@) =~= Seq::<PrizeRowView>::empty());
        while k < self.prizes.len()
            invariant
                0 <= k <= ps.len(),
                ps == self@.prizes,
                ps.len() == self.prizes@.len(),
                has_cat == cat is Some,
                match cat {
                    Some(c) => cat_key@ == c@,
                    None => true,
                },
                prize_views(out@).to_multiset() == prizes_matching(
                    ps.subrange(0, k as int),
                    id as int,
                    opt_text(cat),
                    None,
                ).to_multiset(),
                prize_sorted(prize_views(out@), by_category),
            decreases ps.len() - k,
        {
            let p = &self.prizes[k];
            let ghost prev = prizes_matching(ps.subrange(0, k as int), id as int, opt_text(cat), None);
            assert(ps.subrange(0, k + 1).drop_last() =~= ps.subrange(0, k as int));
            assert(ps.subrange(0, k + 1).last() == ps[k as int]);
            assert(ps[k as int] == p@);
            if p.lottery_id == id && (!has_cat || p.category == cat_key) {
                let ghost pv = p@;
                insert_ordered(&mut out, p.duplicate(), by_category);
                proof {
                    vstd::seq_lib::to_multiset_build(prev, pv);
                }
            }
            k += 1;
        }
        assert(ps.subrange(0, ps.len() as int) =~= ps);
        out
    }

    /// The numbers of draw `lottery_id`, ordered by category (text order),
    /// then by round; numbers equal in both come in any order.
    pub fn get_prize_numbers_by_lottery_id(&self, lottery_id: i64) -> (r: Vec<PrizeNumberRow>)
        requires
            self.wf(),
        ensures
            prize_views(r@).to_multiset() == prizes_matching(self@.prizes, lottery_id as int, None, None).to_multiset(),
            prize_sorted(prize_views(r@), true),
    {
        self.sorted_matching(lottery_id, None, true)
    }

    /// The numbers of a category, draw by draw from the newest, each draw's
    /// numbers ordered by round.
    pub fn get_prize_numbers_by_category(&self, category: &str) -> (r: Vec<PrizeNumberRow>)
        requires
            self.wf(),
        ensures
            grouped_by_draw(self@.draws, self@.prizes, category@, prize_views(r@)),
    {
        let ghost ds = self@.draws;
        let ghost ps = self@.prizes;
        let mut out: Vec<PrizeNumberRow> = Vec::new();
        let mut i: usize = 0;
        assert(ds.subrange(0, 0) =~= Seq::<DrawRowView>::empty());
        while i < self.draws.len()
            invariant
                0 <= i <= ds.len(),
                self.wf(),
                ds == self@.draws,
                ps == self@.prizes,
                ds.len() == self.draws@.len(),
                grouped_by_draw(ds.subrange(0, i as int), ps, category@, prize_views(out@)),
            decreases ds.len() - i,
        {
            let ghost sub = ds.subrange(0, i + 1);
            assert(sub.drop_last() =~= ds.subrange(0, i as int));
            assert(sub.last() == ds[i as int]);
            assert(ds[i as int].id == self.draws@[i as int].id as int);
            let mut seg = self.sorted_matching(self.draws[i].id, Some(category), false);
            let ghost before = prize_views(out@);
            let ghost sv = prize_views(seg@);
            let ghost want = prizes_matching(ps, ds[i as int].id, Some(category@), None);
            out.append(&mut seg);
            proof {
                vstd::seq_lib::to_multiset_len(sv);
                vstd::seq_lib::to_multiset_len(want);
                let now = prize_views(out@);
                assert(now =~= before + sv);
                assert(now.subrange(before.len() as int, now.len() as int) =~= sv);
                assert(now.subrange(0, before.len() as int) =~= before);
            }
            i += 1;
        }
        assert(ds.subrange(0, ds.len() as int) =~= ds);
        out
    }

    /// The numbers whose value holds `number`, each with its draw, draw by
    /// draw from the newest.
    pub fn search_number(&self, number: &str) -> (r: Vec<(LotteryResultRow, PrizeNumberRow)>)
        requires
            self.wf(),
        ensures
            pair_views(r@) == search_pairs(self@.draws, self@.prizes, number@),
    {
        let ghost ds = self@.draws;
        let mut out: Vec<(LotteryResultRow, PrizeNumberRow)> = Vec::new();
        let mut i: usize = 0;
        assert(ds.subrange(0, 0) =~= Seq::<DrawRowView>::empty());
        assert(pair_views(out@) =~= Seq::<(DrawRowView, PrizeRowView)>::empty());
        while i < self.draws.len()
            invariant
                0 <= i <= ds.len(),
                self.wf(),
                ds == self@.draws,
                ds.len() == self.draws@.len(),
                pair_views(out@) == search_pairs(ds.subrange(0, i as int), self@.prizes, number@),
            decreases ds.len() - i,
        {
            let draw = &self.draws[i];
            assert(ds.subrange(0, i + 1).drop_last() =~= ds.subrange(0, i as int));
            assert(ds.subrange(0, i + 1).last() == ds[i as int]);
            assert(ds[i as int] == draw@);
            let mut found: Vec<PrizeNumberRow> = Vec::new();
            self.push_matching(&mut found, draw.id, None, Some(number));
            let ghost hits = prizes_matching(self@.prizes, draw.id as int, None, Some(number@));
            assert(prize_views(found@) =~= hits);
            let ghost start = pair_views(out@);
            let mut j: usize = 0;
            while j < found.len()
                invariant
                    0 <= j <= found@.len(),
                    prize_views(found@) == hits,
                    pair_views(out@) == start + hits.subrange(0, j as int).map_values(
                        |p: PrizeRowView| (draw@, p),
                    ),
                decreases found@.len() - j,
            {
                let ghost before = pair_views(out@);
                let pair = (draw.duplicate(), found[j].duplicate());
                out.push(pair);
                assert(hits[j as int] == found@[j as int]@);
                assert(pair_views(out@) =~= before.push((draw@, found@[j as int]@)));
                assert(hits.subrange(0, j + 1).map_values(|p: PrizeRowView| (draw@, p))
                    =~= hits.subrange(0, j as int).map_values(|p: PrizeRowView| (draw@, p)).push((draw@, hits[j as int])));
                j += 1;
            }
            assert(hits.subrange(0, hits.len() as int) =~= hits);
            i += 1;
        }
        assert(ds.subrange(0, ds.len() as int) =~= ds);
        out
    }

    /// The draw dated `date` with all its numbers, ordered as
    /// [`ResultStore::get_prize_numbers_by_lottery_id`] orders them.
    pub fn get_complete_lottery_data(&self, date: &str) -> (r: Option<(LotteryResultRow, Vec<PrizeNumberRow>)>)
        requires
            self.wf(),
        ensures
            match r {
                Some(x) => draw_for(self@.draws, date@) == Some(x.0@) && prize_views(x.1@).to_multiset()
                    == prizes_matching(self@.prizes, x.0@.id, None, None).to_multiset()
                    && prize_sorted(prize_views(x.1@), true),
                None => draw_for(self@.draws, date@) is None,
            },
    {
        match self.get_lottery_by_date(date) {
            Some(row) => {
                let prizes = self.get_prize_numbers_by_lottery_id(row.id);
                Some((row, prizes))
            },
            None => None,
        }
    }

    /// Adds a number row read back from persistent storage, keeping its id.
    /// Refused, changing nothing, where its id is out of range or taken, its
    /// draw is not stored, or its key is stored already.
    pub fn restore_prize(&mut self, row: PrizeNumberRow) -> (r: Result<(), StorageError>)
        requires
            old(self).wf(),
        ensures
            final(self).wf(),
            r is Ok <==> can_restore_prize(old(self)@, row@),
            r is Ok ==> final(self)@ == restored_prize(old(self)@, row@),
            r is Err ==> r == Err::<(), StorageError>(StorageError::Conflict) && final(self)@ == old(self)@,
    {
        let ghost s = self@;
        if row.id < 1 || row.id == i64::MAX {
            return Err(StorageError::Conflict);
        }
        let mut owner = false;
        let mut i: usize = 0;
        while i < self.draws.len()
            invariant
                0 <= i <= s.draws.len(),
                s == self@,
                store_wf(s),
                s.draws.len() == self.draws@.len(),
                owner <==> exists|t: int| 0 <= t < i && #[trigger] s.draws[t].id == row.lottery_id,
            decreases s.draws.len() - i,
        {
            assert(s.draws[i as int].id == self.draws@[i as int].id);
            if self.draws[i].id == row.lottery_id {
                owner = true;
            }
            i += 1;
        }
        if !owner {
            return Err(StorageError::Conflict);
        }
        let mut k: usize = 0;
        while k < self.prizes.len()
            invariant
                0 <= k <= s.prizes.len(),
                s == self@,
                store_wf(s),
                owner,
                exists|t: int| 0 <= t < s.draws.len() && #[trigger] s.draws[t].id == row.lottery_id,
                s.prizes.len() == self.prizes@.len(),
                forall|t: int| 0 <= t < k ==> #[trigger] s.prizes[t].id != row.id,
                forall|t: int| 0 <= t < k ==> !prize_twins(#[trigger] s.prizes[t], row@),
            decreases s.prizes.len() - k,
        {
            let p = &self.prizes[k];
            assert(s.prizes[k as int] == p@);
            if p.id == row.id || (p.lottery_id == row.lottery_id && p.category == row.category
                && p.number_value == row.number_value && p.round_number == row.round_number) {
                assert(s.prizes[k as int].id == row.id || prize_twins(s.prizes[k as int], row@));
                return Err(StorageError::Conflict);
            }
            assert(s.prizes[k as int].id != row@.id);
            assert(!prize_twins(s.prizes[k as int], row@));
            k += 1;
        }
        let ghost rv = row@;
        let rid = row.id;
        self.prizes.push(row);
        if rid >= self.next_prize_id {
            self.next_prize_id = rid + 1;
        }
        proof {
            let np = self@.prizes;
            assert(np =~= s.prizes.push(rv));
            assert(self@ == restored_prize(s, rv));
            assert forall|a: int, b: int| 0 <= a < b < np.len() implies #[trigger] np[a].id != #[trigger] np[b].id
                && !prize_twins(np[a], np[b]) by {
                if b == s.prizes.len() {
                    assert(s.prizes[a].id != rv.id && !prize_twins(s.prizes[a], rv));
                }
            }
        }
        Ok(())
    }
}

/// Whether number `a` may come before `b`; see [`prize_le`].
fn prize_le_exec(a: &PrizeNumberRow, b: &PrizeNumberRow, by_category: bool) -> (r: bool)
    ensures
        r == prize_le(a@, b@, by_category),
{
    if by_category {
        if text_less(a.category.as_str(), b.category.as_str()) {
            true
        } else {
            a.category == b.category && a.round_number <= b.round_number
        }
    } else {
        a.round_number <= b.round_number
    }
}

/// Inserts `x` into ordered numbers, keeping them ordered.
fn insert_ordered(sorted: &mut Vec<PrizeNumberRow>, x: PrizeNumberRow, by_category: bool)
    requires
        prize_sorted(prize_views(old(sorted)@), by_category),
    ensures
        prize_sorted(prize_views(final(sorted)@), by_category),
        prize_views(final(sorted)@).to_multiset() == prize_views(old(sorted)@).to_multiset().insert(x@),
{
    let ghost s = prize_views(sorted@);
    let mut i: usize = 0;
    while i < sorted.len() && prize_le_exec(&sorted[i], &x, by_category)
        invariant
            0 <= i <= s.len(),
            s == prize_views(sorted@),
            s.len() == sorted@.len(),
            forall|k: int| 0 <= k < i ==> prize_le(#[trigger] s[k], x@, by_category),
        decreases s.len() - i,
    {
        assert(s[i as int] == sorted@[i as int]@);
        i += 1;
    }
    proof {
        if i < s.len() {
            assert(s[i as int] == sorted@[i as int]@);
            lemma_prize_le_total(s[i as int], x@, by_category);
            assert forall|k: int| i <= k < s.len() implies prize_le(x@, #[trigger] s[k], by_category) by {
                if k > i {
                    assert(prize_le(s[i as int], s[k], by_category));
                    lemma_prize_le_transitive(x@, s[i as int], s[k], by_category);
                }
            }
        }
    }
    let ghost xv = x@;
    sorted.insert(i, x);
    proof {
        let n = prize_views(sorted@);
        assert(n =~= s.insert(i as int, xv));
        vstd::seq_lib::to_multiset_insert(s, i as int, xv);
        assert forall|a: int, b: int| 0 <= a < b < n.len() implies #[trigger] prize_le(n[a], n[b], by_category) by {
            if b < i {
                assert(prize_le(s[a], s[b], by_category));
            } else if b == i {
            } else if a == i {
            } else if a < i {
                assert(prize_le(s[a], s[b - 1], by_category));
            } else {
                assert(prize_le(s[a - 1], s[b - 1], by_category));
            }
        }
    }
}

/// A window without bounds holds every draw.
pub proof fn lemma_window_all(ds: Seq<DrawRowView>)
    ensures
        window(ds, None, None) == ds,
    decreases ds.len(),
{
    if ds.len() > 0 {
        lemma_window_all(ds.drop_last());
        assert(ds.drop_last().push(ds.last()) =~= ds);
    }
}

} // verus!
