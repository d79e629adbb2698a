//! Decoding of the results service's replies.
use vstd::prelude::*;
use crate::json::{Json, json_bool, json_get, json_i64, json_str};
use crate::types::{
    category_name, category_name_at, LotteryData, LotteryResponse, LotteryResult, PrizeCategory,
    PrizeNumber, ResponseData, CATEGORY_COUNT,
};

verus! {

/// An integer value that fits an `i32`.
pub open spec fn json_i32(j: Option<Json>) -> Option<i32> {
    match json_i64(j) {
        Some(n) => if i32::MIN <= n <= i32::MAX { Some(n as i32) } else { None },
        None => None,
    }
}

/// Whether `j` is a winning-number object: an `i32` `round` and a text `value`.
pub open spec fn number_ok(j: Json) -> bool {
    json_i32(json_get(j, "round"@)) is Some && json_str(json_get(j, "value"@)) is Some
}

/// Whether `n` is what number object `j` holds.
pub open spec fn number_from(j: Json, n: PrizeNumber) -> bool {
    json_i32(json_get(j, "round"@)) == Some(n.round) && json_str(json_get(j, "value"@)) == Some(n.value@)
}

/// Whether `j` is a category object: a text `price` and an array `number`
/// of number objects.
pub open spec fn category_ok(j: Json) -> bool {
    &&& json_str(json_get(j, "price"@)) is Some
    &&& match json_get(j, "number"@) {
        Some(Json::Array(items)) => forall|i: int| 0 <= i < items@.len() ==> number_ok(#[trigger] items@[i]),
        _ => false,
    }
}

/// Whether `c` is what category object `j` holds.
pub open spec fn category_from(j: Json, c: PrizeCategory) -> bool {
    &&& json_str(json_get(j, "price"@)) == Some(c.price@)
    &&& match json_get(j, "number"@) {
        Some(Json::Array(items)) => items@.len() == c.number@.len() && forall|i: int|
            0 <= i < items@.len() ==> number_from(#[trigger] items@[i], c.number@[i]),
        _ => false,
    }
}

/// Whether `j` holds the nine categories, each a category object.
pub open spec fn data_ok(j: Json) -> bool {
    forall|i: int| 0 <= i < CATEGORY_COUNT ==> match #[trigger] json_get(j, category_name(i)) {
        Some(c) => category_ok(c),
        None => false,
    }
}

/// Whether `d` is what data object `j` holds.
pub open spec fn data_from(j: Json, d: LotteryData) -> bool {
    forall|i: int| 0 <= i < CATEGORY_COUNT ==> match #[trigger] json_get(j, category_name(i)) {
        Some(c) => category_from(c, d.category_spec(i)),
        None => false,
    }
}

/// Whether `j` is a result object: a text `date`, an array `period` of
/// `i32` values and a data object `data`.
pub open spec fn result_ok(j: Json) -> bool {
    &&& json_str(json_get(j, "date"@)) is Some
    &&& match json_get(j, "period"@) {
        Some(Json::Array(items)) => forall|i: int| 0 <= i < items@.len() ==> json_i32(Some(#[trigger] items@[i])) is Some,
        _ => false,
    }
    &&& match json_get(j, "data"@) {
        Some(d) => data_ok(d),
        None => false,
    }
}

/// Whether `r` is what result object `j` holds.
pub open spec fn result_from(j: Json, r: LotteryResult) -> bool {
    &&& json_str(json_get(j, "date"@)) == Some(r.date@)
    &&& match json_get(j, "period"@) {
        Some(Json::Array(items)) => items@.len() == r.period@.len() && forall|i: int|
            0 <= i < items@.len() ==> json_i32(Some(#[trigger] items@[i])) == Some(r.period@[i]),
        _ => false,
    }
    &&& match json_get(j, "data"@) {
        Some(d) => data_from(d, r.data),
        None => false,
    }
}

/// An optional member: missing or `null` reads as absent.
pub open spec fn present(j: Option<Json>) -> Option<Json> {
    match j {
        Some(Json::Null) => None,
        other => other,
    }
}

/// Whether `j` is a payload object: `result`, where present, is a result object.
pub open spec fn payload_ok(j: Json) -> bool {
    match present(json_get(j, "result"@)) {
        Some(r) => result_ok(r),
        None => json_get(j, "result"@) is None || json_get(j, "result"@) == Some(Json::Null),
    }
}

/// Whether `p` is what payload object `j` holds.
pub open spec fn payload_from(j: Json, p: ResponseData) -> bool {
    match present(json_get(j, "result"@)) {
        Some(r) => p.result is Some && result_from(r, p.result->Some_0),
        None => p.result is None,
    }
}

/// Whether `j` is a reply object: a text `statusMessage`, an `i32`
/// `statusCode`, a boolean `status` and, where present, a payload `response`.
pub open spec fn response_ok(j: Json) -> bool {
    &&& json_str(json_get(j, "statusMessage"@)) is Some
    &&& json_i32(json_get(j, "statusCode"@)) is Some
    &&& json_bool(json_get(j, "status"@)) is Some
    &&& match present(json_get(j, "response"@)) {
        Some(p) => payload_ok(p),
        None => true,
    }
}

/// Whether `r` is what reply object `j` holds.
pub open spec fn response_from(j: Json, r: LotteryResponse) -> bool {
    &&& json_str(json_get(j, "statusMessage"@)) == Some(r.status_message@)
    &&& json_i32(json_get(j, "statusCode"@)) == Some(r.status_code)
    &&& json_bool(json_get(j, "status"@)) == Some(r.status)
    &&& match present(json_get(j, "response"@)) {
        Some(p) => r.response is Some && payload_from(p, r.response->Some_0),
        None => r.response is None,
    }
}

fn get_present<'a>(j: &'a Json, key: &str) -> (r: Option<&'a Json>)
    ensures
        match r {
            Some(v) => present(json_get(*j, key@)) == Some(*v),
            None => present(json_get(*j, key@)) is None,
        },
{
    match j.get(key) {
        Some(v) => match v {
            Json::Null => None,
            _ => Some(v),
        },
        None => None,
    }
}

fn get_i32(j: &Json, key: &str) -> (r: Option<i32>)
    ensures
        r == json_i32(json_get(*j, key@)),
{
    match j.get(key) {
        Some(v) => item_i32(v),
        None => None,
    }
}

fn item_i32(v: &Json) -> (r: Option<i32>)
    ensures
        r == json_i32(Some(*v)),
{
    match v.as_i64() {
        Some(n) => if i32::MIN as i64 <= n && n <= i32::MAX as i64 {
            Some(n as i32)
        } else {
            None
        },
        None => None,
    }
}

fn get_string(j: &Json, key: &str) -> (r: Option<String>)
    ensures
        match r {
            Some(s) => json_str(json_get(*j, key@)) == Some(s@),
            None => json_str(json_get(*j, key@)) is None,
        },
{
    match j.get(key) {
        Some(v) => match v.as_str() {
            Some(s) => Some(s.clone()),
            None => None,
        },
        None => None,
    }
}

fn decode_number(j: &Json) -> (r: Option<PrizeNumber>)
    ensures
        r is Some <==> number_ok(*j),
        r is Some ==> number_from(*j, r->Some_0),
{
    let round = match get_i32(j, "round") {
        Some(x) => x,
        None => {
            return None;
        },
    };
    let value = match get_string(j, "value") {
        Some(s) => s,
        None => {
            return None;
        },
    };
    Some(PrizeNumber { round, value })
}

fn decode_category(j: &Json) -> (r: Option<PrizeCategory>)
    ensures
        r is Some <==> category_ok(*j),
        r is Some ==> category_from(*j, r->Some_0),
{
    let price = match get_string(j, "price") {
        Some(s) => s,
        None => {
            return None;
        },
    };
    let items = match j.get("number") {
        Some(v) => match v.as_array() {
            Some(a) => a,
            None => {
                return None;
            },
        },
        None => {
            return None;
        },
    };
    let mut number: Vec<PrizeNumber> = Vec::new();
    let mut i: usize = 0;
    while i < items.len()
        invariant
            0 <= i <= items@.len(),
            number@.len() == i,
            json_get(*j, "number"@) == Some(Json::Array(*items)),
            json_str(json_get(*j, "price"@)) == Some(price@),
            forall|k: int| 0 <= k < i ==> number_ok(#[trigger] items@[k]),
            forall|k: int| 0 <= k < i ==> number_from(#[trigger] items@[k], number@[k]),
        decreases items@.len() - i,
    {
        match decode_number(&items[i]) {
            Some(n) => {
                number.push(n);
            },
            None => {
                assert(!number_ok(items@[i as int]));
                assert(!category_ok(*j)) by {
                    match json_get(*j, "number"@) {
                        Some(Json::Array(xs)) => {
                            assert(xs@ == items@);
                            assert(!number_ok(xs@[i as int]));
                        },
                        _ => {},
                    }
                }
                return None;
            },
        }
        i += 1;
    }
    Some(PrizeCategory { price, number })
}

fn decode_data(j: &Json) -> (r: Option<LotteryData>)
    ensures
        r is Some <==> data_ok(*j),
        r is Some ==> data_from(*j, r->Some_0),
{
    let mut cats: Vec<PrizeCategory> = Vec::new();
    let mut i: usize = 0;
    while i < CATEGORY_COUNT
        invariant
            0 <= i <= CATEGORY_COUNT,
            cats@.len() == i,
            forall|k: int| 0 <= k < i ==> match #[trigger] json_get(*j, category_name(k)) {
                Some(c) => category_ok(c) && category_from(c, cats@[k]),
                None => false,
            },
        decreases CATEGORY_COUNT - i,
    {
        let name = category_name_at(i);
        match j.get(name) {
            Some(c) => match decode_category(c) {
                Some(cat) => {
                    cats.push(cat);
                },
                None => {
                    assert(!data_ok(*j)) by {
                        assert(json_get(*j, category_name(i as int)) == Some(*c));
                    }
                    return None;
                },
            },
            None => {
                assert(!data_ok(*j)) by {
                    assert(json_get(*j, category_name(i as int)) is None);
                }
                return None;
            },
        }
        i += 1;
    }
    let ghost cv = cats@;
    let near1 = cats.pop().unwrap();
    let last3b = cats.pop().unwrap();
    let last3f = cats.pop().unwrap();
    let last2 = cats.pop().unwrap();
    let fifth = cats.pop().unwrap();
    let fourth = cats.pop().unwrap();
    let third = cats.pop().unwrap();
    let second = cats.pop().unwrap();
    let first = cats.pop().unwrap();
    let d = LotteryData { first, second, third, fourth, fifth, last2, last3f, last3b, near1 };
    assert forall|k: int| 0 <= k < CATEGORY_COUNT implies d.category_spec(k) == cv[k] by {}
    Some(d)
}

fn decode_result(j: &Json) -> (r: Option<LotteryResult>)
    ensures
        r is Some <==> result_ok(*j),
        r is Some ==> result_from(*j, r->Some_0),
{
    let date = match get_string(j, "date") {
        Some(s) => s,
        None => {
            return None;
        },
    };
    let items = match j.get("period") {
        Some(v) => match v.as_array() {
            Some(a) => a,
            None => {
                return None;
            },
        },
        None => {
            return None;
        },
    };
    let mut period: Vec<i32> = Vec::new();
    let mut i: usize = 0;
    while i < items.len()
        invariant
            0 <= i <= items@.len(),
            period@.len() == i,
            json_get(*j, "period"@) == Some(Json::Array(*items)),
            json_str(json_get(*j, "date"@)) == Some(date@),
            forall|k: int| 0 <= k < i ==> json_i32(Some(#[trigger] items@[k])) == Some(period@[k]),
        decreases items@.len() - i,
    {
        match item_i32(&items[i]) {
            Some(p) => {
                period.push(p);
            },
            None => {
                return None;
            },
        }
        i += 1;
    }
    let data = match j.get("data") {
        Some(d) => match decode_data(d) {
            Some(x) => x,
            None => {
                return None;
            },
        },
        None => {
            return None;
        },
    };
    Some(LotteryResult { date, period, data })
}

/// Decodes a reply object; `None` where `j` is not one (see [`response_ok`]).
pub fn decode_response(j: &Json) -> (r: Option<LotteryResponse>)
    ensures
        r is Some <==> response_ok(*j),
        r is Some ==> response_from(*j, r->Some_0),
{
    let status_message = match get_string(j, "statusMessage") {
        Some(s) => s,
        None => {
            return None;
        },
    };
    let status_code = match get_i32(j, "statusCode") {
        Some(c) => c,
        None => {
            return None;
        },
    };
    let status = match j.get("status") {
        Some(v) => match v.as_bool() {
            Some(b) => b,
            None => {
                return None;
            },
        },
        None => {
            return None;
        },
    };
    let response = match get_present(j, "response") {
        Some(p) => {
            let result = match get_present(p, "result") {
                Some(x) => match decode_result(x) {
                    Some(res) => Some(res),
                    None => {
                        return None;
                    },
                },
                None => None,
            };
            Some(ResponseData { result })
        },
        None => None,
    };
    Some(LotteryResponse { status_message, status_code, status, response })
}

} // verus!
