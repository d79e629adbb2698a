use lotto_rust::config::Config;
use lotto_rust::reports::{get_category_display_name, report_sections};
use lotto_rust::types::PrizeNumberRow;
use lotto_rust::rpc::{default_jsonrpc, is_notification, rpc_method, tool_named, RpcMethod, ToolName};

#[test]
fn category_display_names() {
    assert_eq!(get_category_display_name("first"), "รางวัลที่ 1");
    assert_eq!(get_category_display_name("near1"), "รางวัลใกล้เคียงรางวัลที่ 1");
    assert_eq!(get_category_display_name("other"), "other");
}

#[test]
fn rpc_routing() {
    assert_eq!(default_jsonrpc(), "2.0");
    assert!(is_notification(false, "tools/list"));
    assert!(is_notification(true, "notifications/initialized"));
    assert!(!is_notification(true, "tools/call"));
    assert_eq!(rpc_method("tools/call"), Some(RpcMethod::CallTool));
    assert_eq!(rpc_method("initialize"), Some(RpcMethod::Initialize));
    assert_eq!(rpc_method("nope"), None);
    assert_eq!(tool_named("search_number"), Some(ToolName::SearchNumber));
    assert_eq!(tool_named("create_database"), Some(ToolName::CreateDatabase));
    assert_eq!(tool_named("drop_database"), None);
}

#[test]
fn config_defaults() {
    let c = Config::from_settings(None, Some("out".to_string()));
    assert_eq!(c.database_url, "data/lottery.db");
    assert_eq!(c.report_path, "out");
}

fn row(id: i64, category: &str, amount: &str, value: &str, round: i32) -> PrizeNumberRow {
    PrizeNumberRow {
        id,
        lottery_id: 1,
        category: category.to_string(),
        prize_amount: amount.to_string(),
        number_value: value.to_string(),
        round_number: round,
    }
}

#[test]
fn report_sections_ordered() {
    let prizes = vec![
        row(1, "last2", "2000.00", "42", 1),
        row(2, "first", "6000000.00", "123456", 1),
        row(3, "last3f", "4000.00", "111", 2),
        row(4, "last3f", "4000.00", "222", 1),
        row(5, "last3f", "4000.00", "333", 1),
        row(6, "other", "1", "9", 1),
    ];
    let sections = report_sections(&prizes);
    let names: Vec<&str> = sections.iter().map(|s| s.category.as_str()).collect();
    assert_eq!(names, vec!["first", "last3f", "last2"]);
    assert_eq!(sections[0].section_class, "prize-section first-prize");
    assert_eq!(sections[1].section_class, "prize-section special-prize");
    assert_eq!(sections[1].display_name, "รางวัลท้าย 3 ตัว (หน้า)");
    assert_eq!(sections[1].prize_amount, "4000.00");
    let values: Vec<&str> = sections[1].numbers.iter().map(|n| n.number_value.as_str()).collect();
    assert_eq!(values, vec!["222", "333", "111"]);
    assert!(report_sections(&vec![]).is_empty());
}
