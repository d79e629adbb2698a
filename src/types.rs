//! The data model: requests, replies of the results service, normalised
//! draw results and stored rows.
use vstd::prelude::*;

verus! {

/// The body of a request for the result of one draw date, components as given.
pub struct LotteryRequest {
    pub date: String,
    pub month: String,
    pub year: String,
}

/// A reply of the results service.
pub struct LotteryResponse {
    pub status_message: String,
    pub status_code: i32,
    pub status: bool,
    pub response: Option<ResponseData>,
}

/// The payload of a reply.
pub struct ResponseData {
    pub result: Option<LotteryResult>,
}

/// One normalised draw result: its date, its period identifiers and its nine
/// prize categories.
pub struct LotteryResult {
    pub date: String,
    pub period: Vec<i32>,
    pub data: LotteryData,
}

/// The nine prize categories of a draw.
pub struct LotteryData {
    pub first: PrizeCategory,
    pub second: PrizeCategory,
    pub third: PrizeCategory,
    pub fourth: PrizeCategory,
    pub fifth: PrizeCategory,
    pub last2: PrizeCategory,
    pub last3f: PrizeCategory,
    pub last3b: PrizeCategory,
    pub near1: PrizeCategory,
}

/// One prize category: the amount paid and the winning numbers.
pub struct PrizeCategory {
    pub price: String,
    pub number: Vec<PrizeNumber>,
}

/// One winning number of a category.
pub struct PrizeNumber {
    pub round: i32,
    pub value: String,
}

/// A stored draw.
pub struct LotteryResultRow {
    pub id: i64,
    pub draw_date: String,
    pub period: String,
    pub created_at: String,
}

/// A stored winning number.
pub struct PrizeNumberRow {
    pub id: i64,
    pub lottery_id: i64,
    pub category: String,
    pub prize_amount: String,
    pub number_value: String,
    pub round_number: i32,
}

/// A failure of the result store.
#[derive(Debug, Clone, Copy, PartialEq, Eq, Structural)]
pub enum StorageError {
    /// No identifier is left to give a new row.
    IdsExhausted,
    /// A row read back from storage clashes with the stored ones.
    Conflict,
}

/// The number of prize categories of a draw.
pub const CATEGORY_COUNT: usize = 9;

/// The name of the category at position `i` of the fixed category order.
pub open spec fn category_name(i: int) -> Seq<char> {
    if i == 0 { "first"@ }
    else if i == 1 { "second"@ }
    else if i == 2 { "third"@ }
    else if i == 3 { "fourth"@ }
    else if i == 4 { "fifth"@ }
    else if i == 5 { "last2"@ }
    else if i == 6 { "last3f"@ }
    else if i == 7 { "last3b"@ }
    else { "near1"@ }
}

/// The name of the category at position `i` of the fixed category order.
pub fn category_name_at(i: usize) -> (r: &'static str)
    requires
        i < CATEGORY_COUNT,
    ensures
        r@ == category_name(i as int),
{
    if i == 0 { "first" }
    else if i == 1 { "second" }
    else if i == 2 { "third" }
    else if i == 3 { "fourth" }
    else if i == 4 { "fifth" }
    else if i == 5 { "last2" }
    else if i == 6 { "last3f" }
    else if i == 7 { "last3b" }
    else { "near1" }
}

impl LotteryData {
    /// The category at position `i` of the fixed category order.
    pub open spec fn category_spec(&self, i: int) -> PrizeCategory {
        if i == 0 { self.first }
        else if i == 1 { self.second }
        else if i == 2 { self.third }
        else if i == 3 { self.fourth }
        else if i == 4 { self.fifth }
        else if i == 5 { self.last2 }
        else if i == 6 { self.last3f }
        else if i == 7 { self.last3b }
        else { self.near1 }
    }

    /// The category at position `i` of the fixed category order.
    pub fn category(&self, i: usize) -> (r: &PrizeCategory)
        requires
            i < CATEGORY_COUNT,
        ensures
            *r == self.category_spec(i as int),
    {
        if i == 0 { &self.first }
        else if i == 1 { &self.second }
        else if i == 2 { &self.third }
        else if i == 3 { &self.fourth }
        else if i == 4 { &self.fifth }
        else if i == 5 { &self.last2 }
        else if i == 6 { &self.last3f }
        else if i == 7 { &self.last3b }
        else { &self.near1 }
    }
}

/// What is stored of one winning number of a draw, before the draw's id is known.
pub struct PrizeEntry {
    pub category: String,
    pub prize_amount: String,
    pub number_value: String,
    pub round_number: i32,
}

/// The model of a [`PrizeEntry`].
pub struct PrizeEntryView {
    pub category: Seq<char>,
    pub prize_amount: Seq<char>,
    pub number_value: Seq<char>,
    pub round_number: i32,
}

impl View for PrizeEntry {
    type V = PrizeEntryView;

    open spec fn view(&self) -> PrizeEntryView {
        PrizeEntryView {
            category: self.category@,
            prize_amount: self.prize_amount@,
            number_value: self.number_value@,
            round_number: self.round_number,
        }
    }
}

/// Everything that saving one draw writes: the draw's key, its period text
/// and its winning numbers in order.
pub struct DrawInsert {
    pub draw_date: String,
    pub period: String,
    pub prizes: Vec<PrizeEntry>,
}

/// The model of a [`DrawInsert`].
pub struct DrawInsertView {
    pub draw_date: Seq<char>,
    pub period: Seq<char>,
    pub prizes: Seq<PrizeEntryView>,
}

impl View for DrawInsert {
    type V = DrawInsertView;

    open spec fn view(&self) -> DrawInsertView {
        DrawInsertView {
            draw_date: self.draw_date@,
            period: self.period@,
            prizes: self.prizes@.map_values(|p: PrizeEntry| p@),
        }
    }
}

/// The model of a [`LotteryResultRow`].
pub struct DrawRowView {
    pub id: int,
    pub draw_date: Seq<char>,
    pub period: Seq<char>,
    pub created_at: Seq<char>,
}

impl View for LotteryResultRow {
    type V = DrawRowView;

    open spec fn view(&self) -> DrawRowView {
        DrawRowView {
            id: self.id as int,
            draw_date: self.draw_date@,
            period: self.period@,
            created_at: self.created_at@,
        }
    }
}

/// The model of a [`PrizeNumberRow`].
pub struct PrizeRowView {
    pub id: int,
    pub lottery_id: int,
    pub category: Seq<char>,
    pub prize_amount: Seq<char>,
    pub number_value: Seq<char>,
    pub round_number: i32,
}

impl View for PrizeNumberRow {
    type V = PrizeRowView;

    open spec fn view(&self) -> PrizeRowView {
        PrizeRowView {
            id: self.id as int,
            lottery_id: self.lottery_id as int,
            category: self.category@,
            prize_amount: self.prize_amount@,
            number_value: self.number_value@,
            round_number: self.round_number,
        }
    }
}

impl LotteryResultRow {
    /// A copy of the row.
    pub fn duplicate(&self) -> (r: LotteryResultRow)
        ensures
            r == *self,
    {
        LotteryResultRow {
            id: self.id,
            draw_date: self.draw_date.clone(),
            period: self.period.clone(),
            created_at: self.created_at.clone(),
        }
    }
}

impl PrizeNumberRow {
    /// A copy of the row.
    pub fn duplicate(&self) -> (r: PrizeNumberRow)
        ensures
            r == *self,
    {
        PrizeNumberRow {
            id: self.id,
            lottery_id: self.lottery_id,
            category: self.category.clone(),
            prize_amount: self.prize_amount.clone(),
            number_value: self.number_value.clone(),
            round_number: self.round_number,
        }
    }
}

} // verus!
