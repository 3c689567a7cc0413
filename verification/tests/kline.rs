use stock_tracker::back::error::DecodeError;
use stock_tracker::back::kline::{decode_klines, Date, KlineItem, KlineItemD, Timestamp};
use stock_tracker::back::stock::{check_stock_code, KLineScale};
use stock_tracker::number::Decimal;

fn record(day: &str) -> KlineItemD {
    KlineItemD {
        day: day.to_string(),
        open: "49.310".to_string(),
        high: "52.900".to_string(),
        low: "48.500".to_string(),
        close: "52.130".to_string(),
        volume: "2237250".to_string(),
        amount: Some("113002687.0127".to_string()),
    }
}

fn stamp(year: i32, month: u32, day: u32, hour: u32, minute: u32, second: u32) -> Timestamp {
    Timestamp { year, month, day, hour, minute, second, nanosecond: 0 }
}

#[test]
fn both_forms_of_day_decode_in_order() {
    let records = vec![record("2024-09-25 10:45:00"), record("2024-09-26")];
    let bars = decode_klines(&records).unwrap();
    assert_eq!(bars.len(), 2);
    assert_eq!(bars[0].day, stamp(2024, 9, 25, 10, 45, 0));
    assert_eq!(bars[1].day, stamp(2024, 9, 26, 0, 0, 0));
}

#[test]
fn bar_holds_the_exact_values() {
    let bar = KlineItem::decode(&record("2024-09-25 10:45:00")).unwrap();
    assert_eq!(
        bar,
        KlineItem {
            day: stamp(2024, 9, 25, 10, 45, 0),
            open: Decimal::new(49310, 3),
            high: Decimal::new(52900, 3),
            low: Decimal::new(48500, 3),
            close: Decimal::new(52130, 3),
            volume: Decimal::new(2237250, 0),
            amount: Decimal::new(1130026870127, 4),
        }
    );
}

#[test]
fn missing_amount_is_zero() {
    let mut r = record("2024-09-26");
    r.amount = None;
    let bar = KlineItem::decode(&r).unwrap();
    assert_eq!(bar.amount, Decimal::new(0, 0));
}

#[test]
fn bad_day_is_a_timestamp_error() {
    assert_eq!(KlineItem::decode(&record("yesterday")), Err(DecodeError::Timestamp));
    assert_eq!(KlineItem::decode(&record("2024-02-30")), Err(DecodeError::Timestamp));
    assert_eq!(KlineItem::decode(&record("2024-09-25 24:00:00")), Err(DecodeError::Timestamp));
    assert_eq!(KlineItem::decode(&record("")), Err(DecodeError::Timestamp));
}

#[test]
fn bad_number_is_a_number_error() {
    let mut r = record("2024-09-26");
    r.close = "fifty".to_string();
    assert_eq!(KlineItem::decode(&r), Err(DecodeError::Number));
    let mut r = record("2024-09-26");
    r.amount = Some("".to_string());
    assert_eq!(KlineItem::decode(&r), Err(DecodeError::Number));
}

#[test]
fn day_is_judged_before_the_numbers() {
    let mut r = record("never");
    r.open = "x".to_string();
    assert_eq!(KlineItem::decode(&r), Err(DecodeError::Timestamp));
}

#[test]
fn one_bad_record_fails_the_whole_response() {
    let mut bad = record("2024-09-26");
    bad.volume = "many".to_string();
    let records = vec![record("2024-09-25 10:45:00"), bad, record("nonsense")];
    assert_eq!(decode_klines(&records), Err(DecodeError::Number));
}

#[test]
fn no_records_give_no_bars() {
    assert_eq!(decode_klines(&Vec::new()), Ok(Vec::new()));
}

#[test]
fn with_day_takes_the_day_as_given() {
    let day = stamp(2001, 2, 3, 4, 5, 6);
    let bar = KlineItem::with_day(Some(day), &record("ignored")).unwrap();
    assert_eq!(bar.day, day);
    assert_eq!(bar.open, Decimal::new(49310, 3));
    assert_eq!(KlineItem::with_day(None, &record("2024-09-26")), Err(DecodeError::Timestamp));
}

#[test]
fn midnight_of_a_date() {
    let date = Date { year: 2024, month: 9, day: 26 };
    assert_eq!(Timestamp::at_midnight(date), stamp(2024, 9, 26, 0, 0, 0));
}

#[test]
fn resolution_codes() {
    assert_eq!(KLineScale::Munute5.to_usize(), 5);
    assert_eq!(KLineScale::Munute15.to_usize(), 15);
    assert_eq!(KLineScale::Munute30.to_usize(), 30);
    assert_eq!(KLineScale::Hour.to_usize(), 60);
    assert_eq!(KLineScale::Day.to_usize(), 240);
    assert_eq!(KLineScale::Week.to_usize(), 1200);
    assert_eq!(KLineScale::Month.to_usize(), 60);
    assert_eq!(KLineScale::default(), KLineScale::Munute15);
}

#[test]
fn stock_code_validation() {
    assert!(check_stock_code("sh600000"));
    assert!(check_stock_code("sz000001"));
    assert!(!check_stock_code("SH600000"));
    assert!(!check_stock_code("sh60000"));
    assert!(!check_stock_code("xx600000"));
    assert!(!check_stock_code("sh6000000"));
    assert!(!check_stock_code("sh60000a"));
    assert!(!check_stock_code("sa600000"));
    assert!(!check_stock_code(" sh600000"));
    assert!(!check_stock_code("sh600000\n"));
    assert!(!check_stock_code(""));
    assert!(!check_stock_code("sh６０００００"));
}
