use lotto_rust::ingest::{parse_raw_document, IngestError, SchemaField};
use lotto_rust::store::ResultStore;
use lotto_rust::types::{LotteryResultRow, StorageError};

const FULL: &str = r#"{"status":true,"response":{"result":{"date":"2024-03-01","period":[123,"x",7],
"data":{"first":{"price":"6000000.00","number":[{"round":1,"value":"123456"}]},
"last2":{"price":"2000.00","number":[{"round":1,"value":"42"},{"value":"43"},{"round":2}]}}}}}"#;

#[test]
fn rejected_document_stores_nothing() {
    let mut store = ResultStore::new();
    let r = store.parse_and_insert_raw_json(r#"{"status":false}"#, "2024-03-01 00:00:00");
    assert_eq!(r, Err(IngestError::Rejected));
    assert!(store.get_all_lottery_results().is_empty());
    assert_eq!(parse_raw_document(r#"{"response":{}}"#).err(), Some(IngestError::Rejected));
}

#[test]
fn missing_price_uses_placeholder() {
    let doc = r#"{"status":true,"response":{"result":{"date":"2024-03-01","period":[1],
"data":{"first":{"number":[{"round":1,"value":"123456"}]}}}}}"#;
    let draw = parse_raw_document(doc).ok().unwrap();
    assert_eq!(draw.prizes.len(), 1);
    assert_eq!(draw.prizes[0].category, "first");
    assert_eq!(draw.prizes[0].prize_amount, "0.00");
    assert_eq!(draw.prizes[0].number_value, "123456");
    assert_eq!(draw.prizes[0].round_number, 1);
    let mut store = ResultStore::new();
    let id = store.parse_and_insert_raw_json(doc, "t").unwrap();
    let prizes = store.get_prize_numbers_by_lottery_id(id);
    assert_eq!(prizes.len(), 1);
    assert_eq!(prizes[0].prize_amount, "0.00");
}

#[test]
fn raw_document_normalised() {
    let draw = parse_raw_document(FULL).ok().unwrap();
    assert_eq!(draw.draw_date, "2024-03-01");
    assert_eq!(draw.period, "123,7");
    assert_eq!(draw.prizes.len(), 4);
    assert_eq!(draw.prizes[1].category, "last2");
    assert_eq!(draw.prizes[2].round_number, 0);
    assert_eq!(draw.prizes[2].number_value, "43");
    assert_eq!(draw.prizes[3].number_value, "");
    assert_eq!(draw.prizes[3].round_number, 2);
}

#[test]
fn raw_document_errors() {
    assert_eq!(parse_raw_document("not json").err(), Some(IngestError::Parse));
    assert_eq!(parse_raw_document(r#"{"status":true}"#).err(), Some(IngestError::Schema(SchemaField::Result)));
    assert_eq!(
        parse_raw_document(r#"{"status":true,"response":{"result":{"period":[],"data":{}}}}"#).err(),
        Some(IngestError::Schema(SchemaField::Date))
    );
    assert_eq!(
        parse_raw_document(r#"{"status":true,"response":{"result":{"date":"d","period":5,"data":{}}}}"#).err(),
        Some(IngestError::Schema(SchemaField::Period))
    );
    assert_eq!(
        parse_raw_document(r#"{"status":true,"response":{"result":{"date":"d","period":[]}}}"#).err(),
        Some(IngestError::Schema(SchemaField::Data))
    );
}

#[test]
fn raw_insert_twice_keeps_one_draw() {
    let mut store = ResultStore::new();
    let a = store.parse_and_insert_raw_json(FULL, "t1").unwrap();
    let b = store.parse_and_insert_raw_json(FULL, "t2").unwrap();
    assert_eq!(a, b);
    assert_eq!(store.get_all_lottery_results().len(), 1);
    assert_eq!(store.get_prize_numbers_by_lottery_id(a).len(), 4);
    assert_eq!(store.get_all_lottery_results()[0].created_at, "t1");
}

#[test]
fn raw_insert_refused_when_ids_run_out() {
    let mut store = ResultStore::new();
    let row = LotteryResultRow { id: i64::MAX - 1, draw_date: "2020-01-01".to_string(), period: "".to_string(), created_at: "t".to_string() };
    store.restore_draw(row).unwrap();
    assert_eq!(store.parse_and_insert_raw_json(FULL, "t"), Err(IngestError::Storage(StorageError::IdsExhausted)));
    assert_eq!(store.get_all_lottery_results().len(), 1);
}
