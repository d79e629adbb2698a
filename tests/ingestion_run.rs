use lotto_rust::pipeline::{decode_lottery_response, FetchOutcome, IngestionRun, RunAction};
use lotto_rust::store::ResultStore;

fn reply(date: &str) -> String {
    let cat = r#"{"price":"1","number":[]}"#;
    format!(
        r#"{{"statusMessage":"ok","statusCode":200,"status":true,"response":{{"result":{{"date":"{}","period":[1],"data":{{"first":{{"price":"6000000.00","number":[{{"round":1,"value":"123456"}}]}},"second":{c},"third":{c},"fourth":{c},"fifth":{c},"last2":{c},"last3f":{c},"last3b":{c},"near1":{c}}}}}}}}}"#,
        date,
        c = cat
    )
}

fn req(d: &str, m: &str, y: &str) -> (String, String, String) {
    (d.to_string(), m.to_string(), y.to_string())
}

#[test]
fn reply_decoding() {
    match decode_lottery_response(&reply("2024-03-01")) {
        FetchOutcome::Found(r) => {
            assert_eq!(r.date, "2024-03-01");
            assert_eq!(r.period, vec![1]);
            assert_eq!(r.data.first.number[0].value, "123456");
        }
        _ => panic!("expected a result"),
    }
    assert!(matches!(decode_lottery_response("{"), FetchOutcome::DecodeError));
    assert!(matches!(decode_lottery_response(r#"{"status":true}"#), FetchOutcome::DecodeError));
    assert!(matches!(
        decode_lottery_response(r#"{"statusMessage":"x","statusCode":200,"status":false}"#),
        FetchOutcome::NoResult
    ));
    assert!(matches!(
        decode_lottery_response(r#"{"statusMessage":"x","statusCode":404,"status":true,"response":null}"#),
        FetchOutcome::NoResult
    ));
    assert!(matches!(
        decode_lottery_response(r#"{"statusMessage":"x","statusCode":200,"status":true,"response":{"result":null}}"#),
        FetchOutcome::NoResult
    ));
}

#[test]
fn full_overlap_fetches_nothing() {
    let mut store = ResultStore::new();
    let doc = reply("2024-03-01");
    if let FetchOutcome::Found(r) = decode_lottery_response(&doc) {
        store.save_lottery_result(&r, "t").unwrap();
    }
    let run = IngestionRun::start(&store, &vec![req("01", "03", "2024")]);
    assert!(matches!(run.next_action(), RunAction::Complete));
    let (results, saved) = run.finish(&mut store, "t");
    assert!(results.is_empty());
    assert_eq!(saved, Ok(()));
}

#[test]
fn pacing_between_fetches() {
    let mut store = ResultStore::new();
    let dates = vec![req("01", "01", "2024"), req("16", "01", "2024"), req("01", "02", "2024")];
    let mut run = IngestionRun::start(&store, &dates);
    let mut trace = Vec::new();
    loop {
        match run.next_action() {
            RunAction::Fetch(r) => {
                trace.push(format!("fetch {}", r.date));
                let key = format!("{}-{}-{}", r.year, r.month, r.date);
                run.record_fetch(decode_lottery_response(&reply(&key)));
            }
            RunAction::Pause => {
                trace.push("pause".to_string());
                run.record_pause();
            }
            RunAction::Complete => break,
        }
    }
    assert_eq!(trace, vec!["fetch 01", "pause", "fetch 16", "pause", "fetch 01", "pause"]);
    let (results, saved) = run.finish(&mut store, "t");
    assert_eq!(saved, Ok(()));
    let got: Vec<String> = results.iter().map(|r| r.date.clone()).collect();
    assert_eq!(got, vec!["2024-01-01", "2024-01-16", "2024-02-01"]);
    assert_eq!(store.get_all_lottery_results().len(), 3);
}

#[test]
fn transport_error_does_not_stop_batch() {
    let mut store = ResultStore::new();
    let dates = vec![req("01", "01", "2024"), req("16", "01", "2024"), req("01", "02", "2024")];
    let mut run = IngestionRun::start(&store, &dates);
    loop {
        match run.next_action() {
            RunAction::Fetch(r) => {
                if r.date == "16" {
                    run.record_fetch(FetchOutcome::TransportError);
                } else {
                    let key = format!("{}-{}-{}", r.year, r.month, r.date);
                    run.record_fetch(decode_lottery_response(&reply(&key)));
                }
            }
            RunAction::Pause => run.record_pause(),
            RunAction::Complete => break,
        }
    }
    let (results, saved) = run.finish(&mut store, "t");
    assert_eq!(saved, Ok(()));
    assert_eq!(results.len(), 2);
    assert!(store.lottery_exists_for_date("2024-01-01"));
    assert!(!store.lottery_exists_for_date("2024-01-16"));
    assert!(store.lottery_exists_for_date("2024-02-01"));
}

#[test]
fn reply_with_out_of_range_fields_is_undecodable() {
    assert!(matches!(
        decode_lottery_response(r#"{"statusMessage":"x","statusCode":3000000000,"status":true}"#),
        FetchOutcome::DecodeError
    ));
    assert!(matches!(
        decode_lottery_response(r#"{"statusMessage":"x","statusCode":200.5,"status":true}"#),
        FetchOutcome::DecodeError
    ));
    let doc = reply("2024-03-01").replace("\"period\":[1]", "\"period\":[1.5]");
    assert!(matches!(decode_lottery_response(&doc), FetchOutcome::DecodeError));
    let doc = reply("2024-03-01").replace(",\"near1\":{\"price\":\"1\",\"number\":[]}", "");
    assert!(matches!(decode_lottery_response(&doc), FetchOutcome::DecodeError));
}
