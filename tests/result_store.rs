use lotto_rust::store::ResultStore;
use lotto_rust::types::{
    LotteryData, LotteryResult, LotteryResultRow, PrizeCategory, PrizeNumber, PrizeNumberRow, StorageError,
};

fn empty_category() -> PrizeCategory {
    PrizeCategory { price: "0".to_string(), number: vec![] }
}

fn draw(date: &str, first: Vec<(i32, &str)>) -> LotteryResult {
    LotteryResult {
        date: date.to_string(),
        period: vec![123],
        data: LotteryData {
            first: PrizeCategory {
                price: "6000000.00".to_string(),
                number: first.into_iter().map(|(round, value)| PrizeNumber { round, value: value.to_string() }).collect(),
            },
            second: empty_category(),
            third: empty_category(),
            fourth: empty_category(),
            fifth: empty_category(),
            last2: PrizeCategory {
                price: "2000.00".to_string(),
                number: vec![PrizeNumber { round: 1, value: "56".to_string() }],
            },
            last3f: empty_category(),
            last3b: empty_category(),
            near1: empty_category(),
        },
    }
}

fn dates(rows: &[LotteryResultRow]) -> Vec<String> {
    rows.iter().map(|r| r.draw_date.clone()).collect()
}

fn sample_store() -> ResultStore {
    let mut store = ResultStore::new();
    for d in ["2024-03-01", "2023-12-16", "2024-01-16", "2024-03-16", "2024-01-01"] {
        store.save_lottery_result(&draw(d, vec![(1, "123456")]), "now").unwrap();
    }
    store
}

#[test]
fn save_twice_keeps_one_row_each() {
    let mut store = ResultStore::new();
    let mut one = draw("2024-03-01", vec![(1, "123456")]);
    one.data.last2 = empty_category();
    let id1 = store.save_lottery_result(&one, "t1").unwrap();
    let rows = store.get_all_lottery_results();
    assert_eq!(rows.len(), 1);
    assert_eq!(rows[0].draw_date, "2024-03-01");
    assert_eq!(rows[0].period, "123");
    let id2 = store.save_lottery_result(&one, "t2").unwrap();
    assert_eq!(id1, id2);
    assert_eq!(store.get_all_lottery_results().len(), 1);
    let prizes = store.get_prize_numbers_by_lottery_id(id1);
    assert_eq!(prizes.len(), 1);
    assert_eq!(prizes[0].category, "first");
    assert_eq!(prizes[0].number_value, "123456");
    assert_eq!(prizes[0].round_number, 1);
    assert_eq!(prizes[0].prize_amount, "6000000.00");
}

#[test]
fn save_adds_new_numbers_to_existing_draw() {
    let mut store = ResultStore::new();
    let id = store.save_lottery_result(&draw("2024-03-01", vec![(1, "111111")]), "t").unwrap();
    store.save_lottery_result(&draw("2024-03-01", vec![(1, "111111"), (2, "222222")]), "t").unwrap();
    let prizes = store.get_prize_numbers_by_lottery_id(id);
    assert_eq!(prizes.len(), 3);
    assert_eq!(prizes[1].number_value, "222222");
    assert_eq!(prizes[1].id, 3);
    assert_eq!(prizes[2].category, "last2");
}

#[test]
fn partition_against_empty_store() {
    let store = ResultStore::new();
    let req = vec![("01".to_string(), "03".to_string(), "2024".to_string())];
    let (to_fetch, stored) = store.check_existing_dates(&req);
    assert_eq!(to_fetch, req);
    assert!(stored.is_empty());
}

#[test]
fn partition_splits_by_existence() {
    let store = sample_store();
    let req = vec![
        ("1".to_string(), "3".to_string(), "2024".to_string()),
        ("16".to_string(), "02".to_string(), "2024".to_string()),
        ("16".to_string(), "12".to_string(), "2023".to_string()),
    ];
    let (to_fetch, stored) = store.check_existing_dates(&req);
    assert_eq!(to_fetch, vec![req[1].clone()]);
    assert_eq!(stored, vec!["2024-03-01".to_string(), "2023-12-16".to_string()]);
    assert!(store.lottery_exists_for_date("2024-01-16"));
    assert!(!store.lottery_exists_for_date("2024-02-16"));
}

#[test]
fn draws_listed_newest_first() {
    let store = sample_store();
    assert_eq!(
        dates(&store.get_all_lottery_results()),
        vec!["2024-03-16", "2024-03-01", "2024-01-16", "2024-01-01", "2023-12-16"]
    );
    let ids: Vec<i64> = store.get_all_lottery_results().iter().map(|r| r.id).collect();
    assert_eq!(ids, vec![4, 1, 3, 5, 2]);
}

#[test]
fn range_year_and_month_queries() {
    let store = sample_store();
    assert_eq!(dates(&store.get_lottery_results_by_date_range("2024-01-01", "2024-03-01")), vec!["2024-03-01", "2024-01-16", "2024-01-01"]);
    assert_eq!(dates(&store.get_lottery_results_by_year("2023")), vec!["2023-12-16"]);
    assert_eq!(dates(&store.get_lottery_results_by_month("2024", "1")), vec!["2024-01-16", "2024-01-01"]);
    assert!(store.get_lottery_results_by_year("2025").is_empty());
}

#[test]
fn latest_after_and_before_queries() {
    let store = sample_store();
    assert_eq!(dates(&store.get_latest_lottery_results(2)), vec!["2024-03-16", "2024-03-01"]);
    assert_eq!(store.get_latest_lottery_results(-1).len(), 5);
    assert_eq!(store.get_latest_lottery_results(0).len(), 0);
    assert_eq!(dates(&store.get_lottery_results_after_date("2024-01-16", None)), vec!["2024-03-16", "2024-03-01", "2024-01-16"]);
    assert_eq!(dates(&store.get_lottery_results_after_date("2024-01-16", Some(1))), vec!["2024-03-16"]);
    assert_eq!(dates(&store.get_lottery_results_before_date("2024-01-01", None)), vec!["2024-01-01", "2023-12-16"]);
    assert_eq!(dates(&store.get_lottery_results_before_date("2024-12-31", Some(2))), vec!["2024-03-16", "2024-03-01"]);
}

#[test]
fn lookups_by_date_category_and_number() {
    let store = sample_store();
    let row = store.get_lottery_by_date("2024-01-16").unwrap();
    assert_eq!(row.id, 3);
    assert!(store.get_lottery_by_date("2024-01-17").is_none());
    let (r, prizes) = store.get_complete_lottery_data("2024-03-01").unwrap();
    assert_eq!(r.id, 1);
    assert_eq!(prizes.len(), 2);
    assert!(store.get_complete_lottery_data("1999-01-01").is_none());
    let firsts = store.get_prize_numbers_by_category("first");
    assert_eq!(firsts.len(), 5);
    assert_eq!(firsts[0].lottery_id, 4);
    let found = store.search_number("345");
    assert_eq!(found.len(), 5);
    assert_eq!(found[0].0.draw_date, "2024-03-16");
    assert_eq!(store.search_number("56").len(), 10);
    assert!(store.search_number("999").is_empty());
}

#[test]
fn save_many_in_order() {
    let mut store = ResultStore::new();
    let results = vec![draw("2024-01-01", vec![]), draw("2024-01-16", vec![])];
    assert_eq!(store.save_multiple_lottery_results(&results, "t"), Ok(()));
    assert_eq!(store.get_lottery_by_date("2024-01-01").unwrap().id, 1);
    assert_eq!(store.get_lottery_by_date("2024-01-16").unwrap().id, 2);
}

#[test]
fn restore_rows_keeps_ids_and_refuses_clashes() {
    let mut store = ResultStore::new();
    let row = LotteryResultRow { id: 7, draw_date: "2024-03-01".to_string(), period: "1".to_string(), created_at: "t".to_string() };
    assert_eq!(store.restore_draw(row), Ok(()));
    let dup = LotteryResultRow { id: 8, draw_date: "2024-03-01".to_string(), period: "1".to_string(), created_at: "t".to_string() };
    assert_eq!(store.restore_draw(dup), Err(StorageError::Conflict));
    let bad = LotteryResultRow { id: 0, draw_date: "2024-04-01".to_string(), period: "1".to_string(), created_at: "t".to_string() };
    assert_eq!(store.restore_draw(bad), Err(StorageError::Conflict));
    let prize = PrizeNumberRow { id: 3, lottery_id: 7, category: "first".to_string(), prize_amount: "1".to_string(), number_value: "123456".to_string(), round_number: 1 };
    assert_eq!(store.restore_prize(prize), Ok(()));
    let orphan = PrizeNumberRow { id: 4, lottery_id: 9, category: "first".to_string(), prize_amount: "1".to_string(), number_value: "1".to_string(), round_number: 1 };
    assert_eq!(store.restore_prize(orphan), Err(StorageError::Conflict));
    let id = store.save_lottery_result(&draw("2024-05-01", vec![(1, "1")]), "t").unwrap();
    assert_eq!(id, 8);
    assert_eq!(store.get_prize_numbers_by_lottery_id(8)[0].id, 4);
}

#[test]
fn save_refused_when_ids_run_out() {
    let mut store = ResultStore::new();
    let row = LotteryResultRow { id: i64::MAX - 1, draw_date: "2020-01-01".to_string(), period: "".to_string(), created_at: "t".to_string() };
    assert_eq!(store.restore_draw(row), Ok(()));
    assert_eq!(store.save_lottery_result(&draw("2024-03-01", vec![(1, "1")]), "t"), Err(StorageError::IdsExhausted));
    assert!(!store.lottery_exists_for_date("2024-03-01"));
    assert_eq!(store.get_all_lottery_results().len(), 1);
    let results = vec![draw("2024-04-01", vec![])];
    assert_eq!(store.save_multiple_lottery_results(&results, "t"), Err(StorageError::IdsExhausted));
}

#[test]
fn partition_of_no_requests() {
    let store = sample_store();
    let (to_fetch, stored) = store.check_existing_dates(&vec![]);
    assert!(to_fetch.is_empty());
    assert!(stored.is_empty());
}

#[test]
fn draw_numbers_ordered_by_category_then_round() {
    let mut store = ResultStore::new();
    let row = LotteryResultRow { id: 1, draw_date: "2024-03-01".to_string(), period: "1".to_string(), created_at: "t".to_string() };
    store.restore_draw(row).unwrap();
    let prize = |id: i64, category: &str, round: i32| PrizeNumberRow {
        id,
        lottery_id: 1,
        category: category.to_string(),
        prize_amount: "1".to_string(),
        number_value: format!("{}", id),
        round_number: round,
    };
    store.restore_prize(prize(1, "second", 1)).unwrap();
    store.restore_prize(prize(2, "first", 2)).unwrap();
    store.restore_prize(prize(3, "first", 1)).unwrap();
    store.restore_prize(prize(4, "last2", 1)).unwrap();
    let got: Vec<i64> = store.get_prize_numbers_by_lottery_id(1).iter().map(|p| p.id).collect();
    assert_eq!(got, vec![3, 2, 4, 1]);
    let (_, complete) = store.get_complete_lottery_data("2024-03-01").unwrap();
    let got: Vec<i64> = complete.iter().map(|p| p.id).collect();
    assert_eq!(got, vec![3, 2, 4, 1]);
}

#[test]
fn category_numbers_ordered_by_draw_then_round() {
    let mut store = ResultStore::new();
    store.save_lottery_result(&draw("2024-01-01", vec![(2, "b"), (1, "a")]), "t").unwrap();
    store.save_lottery_result(&draw("2024-02-01", vec![(3, "d"), (1, "c")]), "t").unwrap();
    let got: Vec<String> = store.get_prize_numbers_by_category("first").iter().map(|p| p.number_value.clone()).collect();
    assert_eq!(got, vec!["c", "d", "a", "b"]);
}
