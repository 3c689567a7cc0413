use stock_tracker::back::error::DecodeError;
use stock_tracker::back::quote::{decode_from_string, decode_snapshot, encode_to_string};
use stock_tracker::back::stock::BaseData;
use stock_tracker::number::Decimal;

const LINE: &str = "var hq_str_sh600000=\"浦发银行,10.010,10.020,10.050,10.080,9.990,10.040,10.050,23456789,235678901.000,12300,10.040,45600,10.030,78900,10.020,1200,10.010,3400,10.000,5600,10.050,7800,10.060,9000,10.070,1100,10.080,2250,10.090,2024-09-25,15:00:00,00,\";";

fn dec(text: &str) -> Decimal {
    Decimal::parse(text).unwrap()
}

fn sample() -> BaseData {
    BaseData {
        date: "2024-09-25".to_string(),
        time: "15:00:00".to_string(),
        opening: dec("10.010"),
        closing: dec("10.020"),
        new: dec("10.050"),
        hight: dec("10.080"),
        low: dec("9.990"),
        bid: dec("10.040"),
        ask: dec("10.050"),
        vol: 234567,
        amount: dec("235678901.000"),
        rise_per: Some(Decimal::new(30, 2)),
        bids: vec![
            (123, dec("10.040")),
            (456, dec("10.030")),
            (789, dec("10.020")),
            (12, dec("10.010")),
            (34, dec("10.000")),
        ],
        asks: vec![
            (56, dec("10.050")),
            (78, dec("10.060")),
            (90, dec("10.070")),
            (11, dec("10.080")),
            (22, dec("10.090")),
        ],
    }
}

#[test]
fn decodes_a_feed_line() {
    let (code, name, data) = decode_from_string(LINE).unwrap().unwrap();
    assert_eq!(code, "sh600000");
    assert_eq!(name, "浦发银行");
    assert_eq!(data, sample());
}

#[test]
fn volumes_are_lots_of_a_hundred_shares() {
    let (_, _, data) = decode_from_string(LINE).unwrap().unwrap();
    assert_eq!(data.vol, 234567);
    assert_eq!(data.asks[4].0, 22);
}

#[test]
fn decodes_a_line_of_exactly_thirty_two_fields() {
    let line = LINE.replace(",00,\";", "\";");
    let (code, _, data) = decode_from_string(&line).unwrap().unwrap();
    assert_eq!(code, "sh600000");
    assert_eq!(data.time, "15:00:00");
}

#[test]
fn white_space_around_a_line_is_ignored() {
    let line = format!("  {}\r", LINE);
    let (code, _, _) = decode_from_string(&line).unwrap().unwrap();
    assert_eq!(code, "sh600000");
}

#[test]
fn short_line_holds_no_data() {
    assert!(matches!(decode_from_string("var hq_str_sh600000=\"\";"), Ok(None)));
    assert!(matches!(decode_from_string("var hq_str_cc000000=\"\";"), Ok(None)));
    assert!(matches!(decode_from_string(""), Ok(None)));
    assert!(matches!(decode_from_string("garbage"), Ok(None)));
    assert!(matches!(decode_from_string("var hq_str_sh600000=\"\";   \r\n"), Ok(None)));
}

#[test]
fn non_numeric_price_makes_the_line_invalid() {
    let line = LINE.replace(",10.050,10.080,", ",n/a,10.080,");
    assert!(matches!(decode_from_string(&line), Err(DecodeError::Number)));
    let line = LINE.replace(",23456789,", ",23456789.5,");
    assert!(matches!(decode_from_string(&line), Err(DecodeError::Number)));
    let line = LINE.replace(",2250,", ",,");
    assert!(matches!(decode_from_string(&line), Err(DecodeError::Number)));
}

#[test]
fn too_few_fields_make_the_line_invalid() {
    let line = "var hq_str_sh600000=\"浦发银行,10.010,10.020,10.050,10.080\";";
    assert!(matches!(decode_from_string(line), Err(DecodeError::FieldCount)));
    let line = LINE.replace(",2024-09-25,15:00:00,00,\";", ",2024-09-25\";");
    assert!(matches!(decode_from_string(&line), Err(DecodeError::FieldCount)));
}

#[test]
fn what_is_no_statement_is_invalid() {
    let line = LINE.replace("var hq_str_", "let hq_str_");
    assert!(matches!(decode_from_string(&line), Err(DecodeError::Shape)));
    let line = LINE.replace("=\"", "=");
    assert!(matches!(decode_from_string(&line), Err(DecodeError::Shape)));
    let line = LINE.replace(",00,\";", ",00,");
    assert!(matches!(decode_from_string(&line), Err(DecodeError::Shape)));
}

#[test]
fn zero_previous_close_gives_no_change() {
    let line = LINE.replace(",10.010,10.020,", ",10.010,0.000,");
    let (_, _, data) = decode_from_string(&line).unwrap().unwrap();
    assert_eq!(data.rise_per, None);
}

#[test]
fn batch_keeps_the_valid_lines() {
    let second = LINE.replace("sh600000", "sz000001").replace("浦发银行", "平安银行");
    let broken = LINE.replace("sh600000", "sh600001").replace(",10.050,10.080,", ",x,10.080,");
    let response = format!(
        "{}\n{}\nvar hq_str_sh600002=\"\";\n{}\n",
        LINE, broken, second
    );
    let quotes = decode_snapshot(&response);
    assert_eq!(quotes.len(), 2);
    assert_eq!(quotes[0].0, "sh600000");
    assert_eq!(quotes[0].1, "浦发银行");
    assert_eq!(quotes[0].2, sample());
    assert_eq!(quotes[1].0, "sz000001");
    assert_eq!(quotes[1].1, "平安银行");
    assert!(matches!(decode_from_string(&broken), Err(DecodeError::Number)));
}

#[test]
fn batch_of_nothing_is_empty() {
    assert!(decode_snapshot("").is_empty());
    assert!(decode_snapshot("\n\n").is_empty());
    assert!(decode_snapshot("var hq_str_sh600000=\"\";\n").is_empty());
}

#[test]
fn encodes_a_statement() {
    let line = encode_to_string("sh600000", "浦发银行", &sample());
    let expected = LINE
        .replace(",00,\";", "\";")
        .replace(",23456789,", ",23456700,")
        .replace(",2250,", ",2200,");
    assert_eq!(line, expected);
}

#[test]
fn encoded_quote_decodes_to_itself() {
    let line = encode_to_string("sz000001", "平安银行", &sample());
    let (code, name, data) = decode_from_string(&line).unwrap().unwrap();
    assert_eq!(code, "sz000001");
    assert_eq!(name, "平安银行");
    assert_eq!(data, sample());
}
