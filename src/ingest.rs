//! Normalisation of a raw result document into what saving a draw writes.
use vstd::prelude::*;
use vstd::string::*;
use crate::json::{Json, json_bool, json_get, json_i64, json_str, parse_json, parsed_json};
use crate::text::{ints_of, join_decimals, joined_decimals};
use crate::types::{
    category_name, category_name_at, DrawInsert, DrawInsertView, LotteryData, LotteryResult,
    PrizeEntry, PrizeEntryView, PrizeNumber, StorageError, CATEGORY_COUNT,
};

verus! {

/// The required member of a result document that is missing.
#[derive(Debug, Clone, Copy, PartialEq, Eq, Structural)]
pub enum SchemaField {
    Result,
    Date,
    Period,
    Data,
}

/// Why a raw result document was not ingested.
#[derive(Debug, Clone, Copy, PartialEq, Eq, Structural)]
pub enum IngestError {
    /// The text is not JSON.
    Parse,
    /// The document's `status` is not `true`.
    Rejected,
    /// A required member is missing or has the wrong type.
    Schema(SchemaField),
    /// The store could not take the draw.
    Storage(StorageError),
}

/// The integers among `items`, in order.
pub open spec fn int_items(items: Seq<Json>) -> Seq<int>
    decreases items.len(),
{
    if items.len() == 0 {
        Seq::empty()
    } else {
        let prev = int_items(items.drop_last());
        match json_i64(Some(items.last())) {
            Some(n) => prev.push(n as int),
            None => prev,
        }
    }
}

/// The amount of a category object: its `price` text, or the placeholder `0.00`.
pub open spec fn raw_price(category: Json) -> Seq<char> {
    match json_str(json_get(category, "price"@)) {
        Some(p) => p,
        None => "0.00"@,
    }
}

/// The entry of one number object of a category: a missing `value` reads as
/// the empty text, a missing `round` as 0; a round is kept as its low 32 bits.
pub open spec fn raw_entry(category: Seq<char>, price: Seq<char>, n: Json) -> PrizeEntryView {
    PrizeEntryView {
        category: category,
        prize_amount: price,
        number_value: match json_str(json_get(n, "value"@)) {
            Some(v) => v,
            None => Seq::empty(),
        },
        round_number: match json_i64(json_get(n, "round"@)) {
            Some(r) => r as i32,
            None => 0,
        },
    }
}

/// The entries of the category at position `i` of a `data` object; none when
/// the category or its `number` array is missing.
pub open spec fn raw_category_entries(data: Json, i: int) -> Seq<PrizeEntryView> {
    match json_get(data, category_name(i)) {
        Some(cat) => match json_get(cat, "number"@) {
            Some(Json::Array(ns)) => ns@.map_values(
                |n: Json| raw_entry(category_name(i), raw_price(cat), n),
            ),
            _ => Seq::empty(),
        },
        None => Seq::empty(),
    }
}

/// The entries of the first `k` categories of a `data` object, in category order.
pub open spec fn raw_entries(data: Json, k: int) -> Seq<PrizeEntryView>
    decreases k,
{
    if k <= 0 {
        Seq::empty()
    } else {
        raw_entries(data, k - 1) + raw_category_entries(data, k - 1)
    }
}

/// What a result document yields: `Rejected` unless `status` is `true`; then
/// a `Schema` error naming the first of `response.result`, `date` (a text),
/// `period` (an array) and `data` that is missing; else the draw, with the
/// integers of `period` joined and the numbers of every category present.
pub open spec fn raw_document_outcome(doc: Json) -> Result<DrawInsertView, IngestError> {
    if json_bool(json_get(doc, "status"@)) != Some(true) {
        Err(IngestError::Rejected)
    } else {
        let result = match json_get(doc, "response"@) {
            Some(r) => json_get(r, "result"@),
            None => None,
        };
        match result {
            None => Err(IngestError::Schema(SchemaField::Result)),
            Some(res) => match json_str(json_get(res, "date"@)) {
                None => Err(IngestError::Schema(SchemaField::Date)),
                Some(date) => match json_get(res, "period"@) {
                    Some(Json::Array(items)) => match json_get(res, "data"@) {
                        None => Err(IngestError::Schema(SchemaField::Data)),
                        Some(data) => Ok(
                            DrawInsertView {
                                draw_date: date,
                                period: joined_decimals(int_items(items@)),
                                prizes: raw_entries(data, CATEGORY_COUNT as int),
                            },
                        ),
                    },
                    _ => Err(IngestError::Schema(SchemaField::Period)),
                },
            },
        }
    }
}

/// What a raw text yields: `Parse` where it is not JSON, else what its document yields.
pub open spec fn raw_text_outcome(text: Seq<char>) -> Result<DrawInsertView, IngestError> {
    match parsed_json(text) {
        None => Err(IngestError::Parse),
        Some(doc) => raw_document_outcome(doc),
    }
}

/// The model of a normalisation outcome.
pub open spec fn outcome_view(r: Result<DrawInsert, IngestError>) -> Result<DrawInsertView, IngestError> {
    match r {
        Ok(d) => Ok(d@),
        Err(e) => Err(e),
    }
}

fn int_items_of(items: &Vec<Json>) -> (r: Vec<i64>)
    ensures
        ints_of(r@) == int_items(items@),
{
    let mut out: Vec<i64> = Vec::new();
    let mut i: usize = 0;
    assert(items@.subrange(0, 0) =~= Seq::<Json>::empty());
    assert(ints_of(out@) =~= Seq::<int>::empty());
    while i < items.len()
        invariant
            0 <= i <= items@.len(),
            ints_of(out@) == int_items(items@.subrange(0, i as int)),
        decreases items@.len() - i,
    {
        let ghost prefix = items@.subrange(0, i as int);
        assert(items@.subrange(0, i + 1).drop_last() =~= prefix);
        assert(items@.subrange(0, i + 1).last() == items@[i as int]);
        match items[i].as_i64() {
            Some(n) => {
                out.push(n);
                assert(ints_of(out@) =~= int_items(prefix).push(n as int));
            },
            None => {},
        }
        i += 1;
    }
    assert(items@.subrange(0, items@.len() as int) =~= items@);
    out
}

/// The models of a sequence of entries.
pub open spec fn entries_view(v: Seq<PrizeEntry>) -> Seq<PrizeEntryView> {
    v.map_values(|p: PrizeEntry| p@)
}

fn price_of(category: &Json) -> (r: String)
    ensures
        r@ == raw_price(*category),
{
    match category.get("price") {
        Some(p) => match p.as_str() {
            Some(s) => s.clone(),
            None => String::from_str("0.00"),
        },
        None => String::from_str("0.00"),
    }
}

fn entry_of(category: &str, price: &String, n: &Json) -> (r: PrizeEntry)
    ensures
        r@ == raw_entry(category@, price@, *n),
{
    let number_value = match n.get("value") {
        Some(v) => match v.as_str() {
            Some(s) => s.clone(),
            None => String::new(),
        },
        None => String::new(),
    };
    let round_number: i32 = match n.get("round") {
        Some(r) => match r.as_i64() {
            Some(x) => x as i32,
            None => 0,
        },
        None => 0,
    };
    PrizeEntry {
        category: String::from_str(category),
        prize_amount: price.clone(),
        number_value,
        round_number,
    }
}

/// Appends the entries of the category at position `i` of `data`.
fn push_category_entries(out: &mut Vec<PrizeEntry>, data: &Json, i: usize)
    requires
        i < CATEGORY_COUNT,
    ensures
        entries_view(final(out)@) == entries_view(old(out)@) + raw_category_entries(*data, i as int),
{
    let name = category_name_at(i);
    match data.get(name) {
        Some(cat) => match cat.get("number") {
            Some(numbers) => match numbers.as_array() {
                Some(ns) => {
                    let price = price_of(cat);
                    let ghost start = entries_view(out@);
                    let mut j: usize = 0;
                    while j < ns.len()
                        invariant
                            0 <= j <= ns@.len(),
                            name@ == category_name(i as int),
                            price@ == raw_price(*cat),
                            entries_view(out@) == start + ns@.subrange(0, j as int).map_values(
                                |n: Json| raw_entry(category_name(i as int), raw_price(*cat), n),
                            ),
                        decreases ns@.len() - j,
                    {
                        let e = entry_of(name, &price, &ns[j]);
                        let ghost before = out@;
                        let ghost ev = e@;
                        out.push(e);
                        assert(entries_view(out@) =~= entries_view(before).push(ev));
                        assert(ns@.subrange(0, j + 1) =~= ns@.subrange(0, j as int).push(ns@[j as int]));
                        assert(ns@.subrange(0, j + 1).map_values(
                            |n: Json| raw_entry(category_name(i as int), raw_price(*cat), n),
                        ) =~= ns@.subrange(0, j as int).map_values(
                            |n: Json| raw_entry(category_name(i as int), raw_price(*cat), n),
                        ).push(ev));
                        assert(entries_view(out@) =~= start + ns@.subrange(0, j + 1).map_values(
                            |n: Json| raw_entry(category_name(i as int), raw_price(*cat), n),
                        ));
                        j += 1;
                    }
                    assert(ns@.subrange(0, ns@.len() as int) =~= ns@);
                    assert(entries_view(out@) =~= entries_view(old(out)@) + raw_category_entries(*data, i as int));
                },
                None => {
                    assert(entries_view(out@) =~= entries_view(old(out)@) + raw_category_entries(*data, i as int));
                },
            },
            None => {
                assert(entries_view(out@) =~= entries_view(old(out)@) + raw_category_entries(*data, i as int));
            },
        },
        None => {
            assert(entries_view(out@) =~= entries_view(old(out)@) + raw_category_entries(*data, i as int));
        },
    }
}

fn raw_prize_entries(data: &Json) -> (r: Vec<PrizeEntry>)
    ensures
        entries_view(r@) == raw_entries(*data, CATEGORY_COUNT as int),
{
    let mut out: Vec<PrizeEntry> = Vec::new();
    let mut i: usize = 0;
    assert(entries_view(out@) =~= raw_entries(*data, 0));
    while i < CATEGORY_COUNT
        invariant
            0 <= i <= CATEGORY_COUNT,
            entries_view(out@) == raw_entries(*data, i as int),
        decreases CATEGORY_COUNT - i,
    {
        push_category_entries(&mut out, data, i);
        i += 1;
    }
    out
}

/// Normalises a parsed result document; see [`raw_document_outcome`].
pub fn normalize_raw_document(doc: &Json) -> (r: Result<DrawInsert, IngestError>)
    ensures
        outcome_view(r) == raw_document_outcome(*doc),
{
    let accepted = match doc.get("status") {
        Some(s) => match s.as_bool() {
            Some(b) => b,
            None => false,
        },
        None => false,
    };
    if !accepted {
        return Err(IngestError::Rejected);
    }
    let result = match doc.get("response") {
        Some(r) => r.get("result"),
        None => None,
    };
    let res = match result {
        Some(res) => res,
        None => {
            return Err(IngestError::Schema(SchemaField::Result));
        },
    };
    let date = match res.get("date") {
        Some(d) => match d.as_str() {
            Some(s) => s,
            None => {
                return Err(IngestError::Schema(SchemaField::Date));
            },
        },
        None => {
            return Err(IngestError::Schema(SchemaField::Date));
        },
    };
    let items = match res.get("period") {
        Some(p) => match p.as_array() {
            Some(a) => a,
            None => {
                return Err(IngestError::Schema(SchemaField::Period));
            },
        },
        None => {
            return Err(IngestError::Schema(SchemaField::Period));
        },
    };
    let data = match res.get("data") {
        Some(d) => d,
        None => {
            return Err(IngestError::Schema(SchemaField::Data));
        },
    };
    let period = join_decimals(&int_items_of(items));
    let prizes = raw_prize_entries(data);
    let draw = DrawInsert { draw_date: date.clone(), period, prizes };
    assert(draw@.prizes =~= entries_view(prizes@));
    Ok(draw)
}

/// Parses and normalises a raw result document; see [`raw_text_outcome`].
pub fn parse_raw_document(raw: &str) -> (r: Result<DrawInsert, IngestError>)
    ensures
        outcome_view(r) == raw_text_outcome(raw@),
{
    match parse_json(raw) {
        Some(doc) => normalize_raw_document(&doc),
        None => Err(IngestError::Parse),
    }
}

/// The entry of winning number `n` of a category paying `price`.
pub open spec fn number_entry(category: Seq<char>, price: Seq<char>, n: PrizeNumber) -> PrizeEntryView {
    PrizeEntryView {
        category: category,
        prize_amount: price,
        number_value: n.value@,
        round_number: n.round,
    }
}

/// The entries of the category at position `i` of a draw's data.
pub open spec fn result_category_entries(d: LotteryData, i: int) -> Seq<PrizeEntryView> {
    d.category_spec(i).number@.map_values(
        |n: PrizeNumber| number_entry(category_name(i), d.category_spec(i).price@, n),
    )
}

/// The entries of the first `k` categories of a draw's data, in category order.
pub open spec fn result_entries(d: LotteryData, k: int) -> Seq<PrizeEntryView>
    decreases k,
{
    if k <= 0 {
        Seq::empty()
    } else {
        result_entries(d, k - 1) + result_category_entries(d, k - 1)
    }
}

/// What saving a normalised result writes: its date, its period identifiers
/// joined with `,`, and every number of every category in category order.
pub open spec fn result_insert(r: LotteryResult) -> DrawInsertView {
    DrawInsertView {
        draw_date: r.date@,
        period: joined_decimals(r.period@.map_values(|p: i32| p as int)),
        prizes: result_entries(r.data, CATEGORY_COUNT as int),
    }
}

/// What saving a normalised result writes; see [`result_insert`].
pub fn draw_insert_of(result: &LotteryResult) -> (r: DrawInsert)
    ensures
        r@ == result_insert(*result),
{
    let mut wide: Vec<i64> = Vec::new();
    let mut i: usize = 0;
    while i < result.period.len()
        invariant
            0 <= i <= result.period@.len(),
            ints_of(wide@) == result.period@.subrange(0, i as int).map_values(|p: i32| p as int),
        decreases result.period@.len() - i,
    {
        let ghost before = wide@;
        wide.push(result.period[i] as i64);
        assert(ints_of(wide@) =~= ints_of(before).push(result.period@[i as int] as int));
        assert(ints_of(wide@) =~= result.period@.subrange(0, i + 1).map_values(|p: i32| p as int));
        i += 1;
    }
    assert(result.period@.subrange(0, result.period@.len() as int) =~= result.period@);
    let period = join_decimals(&wide);
    let mut prizes: Vec<PrizeEntry> = Vec::new();
    let mut c: usize = 0;
    assert(entries_view(prizes@) =~= result_entries(result.data, 0));
    while c < CATEGORY_COUNT
        invariant
            0 <= c <= CATEGORY_COUNT,
            entries_view(prizes@) == result_entries(result.data, c as int),
        decreases CATEGORY_COUNT - c,
    {
        let cat = result.data.category(c);
        let name = category_name_at(c);
        let ghost start = entries_view(prizes@);
        let mut j: usize = 0;
        while j < cat.number.len()
            invariant
                0 <= j <= cat.number@.len(),
                *cat == result.data.category_spec(c as int),
                name@ == category_name(c as int),
                entries_view(prizes@) == start + cat.number@.subrange(0, j as int).map_values(|n: PrizeNumber| number_entry(category_name(c as int), cat.price@, n)),
            decreases cat.number@.len() - j,
        {
            let n = &cat.number[j];
            let e = PrizeEntry {
                category: String::from_str(name),
                prize_amount: cat.price.clone(),
                number_value: n.value.clone(),
                round_number: n.round,
            };
            let ghost before = prizes@;
            let ghost ev = e@;
            prizes.push(e);
            assert(entries_view(prizes@) =~= entries_view(before).push(ev));

            assert(cat.number@.subrange(0, j + 1).map_values(|n: PrizeNumber| number_entry(category_name(c as int), cat.price@, n)) =~= cat.number@.subrange(0, j as int).map_values(|n: PrizeNumber| number_entry(category_name(c as int), cat.price@, n)).push(ev));
            j += 1;
        }
        assert(cat.number@.subrange(0, cat.number@.len() as int) =~= cat.number@);
        assert(entries_view(prizes@) =~= result_entries(result.data, c + 1));
        c += 1;
    }
    let draw = DrawInsert { draw_date: result.date.clone(), period, prizes };
    assert(draw@.prizes =~= entries_view(prizes@));
    draw
}

} // verus!
