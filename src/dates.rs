//! Canonical draw-date keys.
use vstd::prelude::*;
use vstd::string::*;
use crate::text::{append_pad2, decimal_of, decimal_string, pad2};

verus! {

/// The canonical storage key `YYYY-MM-DD` of a draw requested as day, month
/// and year: the year as given, then month and day each left-padded with
/// `'0'` to two characters.
pub open spec fn date_key(day: Seq<char>, month: Seq<char>, year: Seq<char>) -> Seq<char> {
    year + seq!['-'] + pad2(month) + seq!['-'] + pad2(day)
}

/// The canonical key of a requested draw date.
pub fn format_date_for_api(date: &str, month: &str, year: &str) -> (r: String)
    ensures
        r@ == date_key(date@, month@, year@),
{
    proof { reveal_strlit("-"); }
    let mut key = String::from_str(year);
    key.append("-");
    append_pad2(&mut key, month);
    key.append("-");
    append_pad2(&mut key, date);
    assert(key@ =~= date_key(date@, month@, year@));
    key
}

/// Whether `y` is a leap year of the proleptic Gregorian calendar.
pub open spec fn is_leap_year(y: int) -> bool {
    (y % 4 == 0 && y % 100 != 0) || y % 400 == 0
}

/// The number of days of month `m` of year `y`.
pub open spec fn days_in_month(y: int, m: int) -> int {
    if m == 2 {
        if is_leap_year(y) { 29 } else { 28 }
    } else if m == 4 || m == 6 || m == 9 || m == 11 {
        30
    } else {
        31
    }
}

/// Whether year `y`, month `m`, day `d` is a calendar date that chrono's
/// `NaiveDate` can hold (years -262143 to 262142).
pub open spec fn valid_date(y: int, m: int, d: int) -> bool {
    &&& -262143 <= y <= 262142
    &&& 1 <= m <= 12
    &&& 1 <= d <= days_in_month(y, m)
}

/// Relies on `chrono::NaiveDate::from_ymd_opt`: `Some` exactly for a valid
/// proleptic Gregorian date within `NaiveDate`'s year range.
#[verifier::external_body]
fn calendar_date_exists(year: i32, month: u32, day: u32) -> (r: bool)
    ensures
        r == valid_date(year as int, month as int, day as int),
{
    chrono::NaiveDate::from_ymd_opt(year, month, day).is_some()
}

/// The draw dates of a year up to slot `k`: two per month, on the 1st and the
/// 16th, as zero-padded day, zero-padded month and year; a date that does not
/// exist is left out.
pub open spec fn lottery_dates_upto(year: int, k: int) -> Seq<(Seq<char>, Seq<char>, Seq<char>)>
    decreases k,
{
    if k <= 0 {
        Seq::empty()
    } else {
        let prev = lottery_dates_upto(year, k - 1);
        let m = (k - 1) / 2 + 1;
        let d = if (k - 1) % 2 == 0 { 1int } else { 16int };
        if valid_date(year, m, d) {
            prev.push((pad2(decimal_of(d)), pad2(decimal_of(m)), decimal_of(year)))
        } else {
            prev
        }
    }
}

/// The models of requested dates.
pub open spec fn triple_views(v: Seq<(String, String, String)>) -> Seq<(Seq<char>, Seq<char>, Seq<char>)> {
    v.map_values(|t: (String, String, String)| (t.0@, t.1@, t.2@))
}

/// The twice-monthly draw dates of a year as `(day, month, year)`.
pub fn generate_lottery_dates(year: i32) -> (r: Vec<(String, String, String)>)
    ensures
        triple_views(r@) == lottery_dates_upto(year as int, 24),
{
    let mut out: Vec<(String, String, String)> = Vec::new();
    let mut k: usize = 0;
    assert(triple_views(out@) =~= lottery_dates_upto(year as int, 0));
    while k < 24
        invariant
            0 <= k <= 24,
            triple_views(out@) == lottery_dates_upto(year as int, k as int),
        decreases 24 - k,
    {
        let month: u32 = (k / 2 + 1) as u32;
        let day: u32 = if k % 2 == 0 { 1 } else { 16 };
        if calendar_date_exists(year, month, day) {
            let mut d = String::new();
            append_pad2(&mut d, decimal_string(day as i64).as_str());
            let mut m = String::new();
            append_pad2(&mut m, decimal_string(month as i64).as_str());
            let y = decimal_string(year as i64);
            let ghost before = triple_views(out@);
            let ghost tv = (d@, m@, y@);
            out.push((d, m, y));
            assert(triple_views(out@) =~= before.push(tv));
        }
        k += 1;
    }
    out
}

} // verus!
