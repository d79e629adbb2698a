use lotto_rust::dates::{format_date_for_api, generate_lottery_dates};
use lotto_rust::text::{decimal_string, join_decimals};

#[test]
fn date_key_pads_month_and_day() {
    assert_eq!(format_date_for_api("1", "3", "2024"), "2024-03-01");
    assert_eq!(format_date_for_api("01", "03", "2024"), "2024-03-01");
    assert_eq!(format_date_for_api("16", "12", "2023"), "2023-12-16");
}

#[test]
fn date_key_keeps_long_and_empty_parts() {
    assert_eq!(format_date_for_api("123", "", "24"), "24-00-123");
}

#[test]
fn lottery_dates_of_a_year() {
    let dates = generate_lottery_dates(2024);
    assert_eq!(dates.len(), 24);
    assert_eq!(dates[0], ("01".to_string(), "01".to_string(), "2024".to_string()));
    assert_eq!(dates[1], ("16".to_string(), "01".to_string(), "2024".to_string()));
    assert_eq!(dates[23], ("16".to_string(), "12".to_string(), "2024".to_string()));
}

#[test]
fn lottery_dates_out_of_calendar_range() {
    assert!(generate_lottery_dates(300000).is_empty());
    assert_eq!(generate_lottery_dates(-5)[0].2, "-5");
}

#[test]
fn decimals_render_and_join() {
    assert_eq!(decimal_string(0), "0");
    assert_eq!(decimal_string(-120), "-120");
    assert_eq!(decimal_string(i64::MIN), "-9223372036854775808");
    assert_eq!(join_decimals(&vec![1, 23, -4]), "1,23,-4");
    assert_eq!(join_decimals(&vec![]), "");
}
