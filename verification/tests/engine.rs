use stock_tracker::back::fetch::{kline_url, response_text, snapshot_url, KLINE_DATALEN, REFERER};
use stock_tracker::back::kline::{KlineItem, KlineItemD, Timestamp};
use stock_tracker::back::message::{ToBackend, ToFrontend};
use stock_tracker::back::quote::decode_from_string;
use stock_tracker::back::stock::{BaseData, KLineScale, Stock};
use stock_tracker::back::symbols::SymbolSet;
use stock_tracker::back::{
    Back, Effect, Event, SnapshotUse, KLINE_INTERVAL_SECS, QUOTE_INTERVAL_MS,
};
use stock_tracker::number::Decimal;

const LINE: &str = "var hq_str_sh600000=\"浦发银行,10.010,10.020,10.050,10.080,9.990,10.040,10.050,23456789,235678901.000,12300,10.040,45600,10.030,78900,10.020,1200,10.010,3400,10.000,5600,10.050,7800,10.060,9000,10.070,1100,10.080,2250,10.090,2024-09-25,15:00:00,00,\";";

fn codes(list: &[&str]) -> Vec<String> {
    list.iter().map(|c| c.to_string()).collect()
}

fn list_fetch(list: &[&str]) -> Effect {
    Effect::FetchSnapshot(codes(list), SnapshotUse::List)
}

fn kline_fetch(code: &str, scale: usize) -> Effect {
    Effect::FetchKline(code.to_string(), scale, 100)
}

fn command(m: ToBackend) -> Event {
    Event::Message(m)
}

fn quote_of(line: &str) -> (String, String, BaseData) {
    decode_from_string(line).unwrap().unwrap()
}

fn record(day: &str) -> KlineItemD {
    KlineItemD {
        day: day.to_string(),
        open: "1".to_string(),
        high: "2".to_string(),
        low: "0.5".to_string(),
        close: "1.5".to_string(),
        volume: "100".to_string(),
        amount: None,
    }
}

#[test]
fn timers_and_request_size() {
    assert_eq!(QUOTE_INTERVAL_MS, 200);
    assert_eq!(KLINE_INTERVAL_SECS, 60);
    assert_eq!(KLINE_DATALEN, 100);
    assert_eq!(REFERER, "https://www.sina.com.cn/");
}

#[test]
fn seed_keeps_stock_codes_once() {
    let back = Back::new("sh600000,bogus,sz000001,sh600000,,SH600001, sz000002");
    assert_eq!(back.stock_codes(), codes(&["sh600000", "sz000001"]));
    assert_eq!(back.interval(), QUOTE_INTERVAL_MS);
    assert!(Back::new("").stock_codes().is_empty());
}

#[test]
fn start_fetches_list_and_bars() {
    let mut back = Back::new("sh600000,sz000001");
    assert_eq!(
        back.step(Event::Start),
        vec![
            list_fetch(&["sh600000", "sz000001"]),
            kline_fetch("sh600000", 15),
            kline_fetch("sz000001", 15),
        ]
    );
    assert_eq!(Back::new("").step(Event::Start), vec![]);
}

#[test]
fn quote_tick_fetches_all_in_one_request() {
    let mut back = Back::new("sh600000,sz000001");
    assert_eq!(back.step(Event::QuoteTick), vec![list_fetch(&["sh600000", "sz000001"])]);
    assert_eq!(
        back.step(command(ToBackend::Refresh)),
        vec![list_fetch(&["sh600000", "sz000001"])]
    );
}

#[test]
fn empty_set_fetches_nothing() {
    let mut back = Back::new("");
    assert_eq!(back.step(Event::QuoteTick), vec![]);
    assert_eq!(back.step(Event::KlineTick), vec![]);
    assert_eq!(back.step(command(ToBackend::Refresh)), vec![]);
}

#[test]
fn kline_tick_fetches_each_at_its_resolution() {
    let mut back = Back::new("sh600000,sz000001");
    back.step(command(ToBackend::StockKLine("sz000001".to_string(), KLineScale::Week)));
    assert_eq!(
        back.step(Event::KlineTick),
        vec![kline_fetch("sh600000", 15), kline_fetch("sz000001", 1200)]
    );
}

#[test]
fn set_interval_restarts_the_ticker() {
    let mut back = Back::new("");
    assert_eq!(back.step(command(ToBackend::SetInterval(500))), vec![Effect::SetTicker(500)]);
    assert_eq!(back.interval(), 500);
    assert_eq!(back.step(command(ToBackend::SetInterval(0))), vec![]);
    assert_eq!(back.interval(), 500);
}

#[test]
fn add_fetches_then_publishes_then_tracks() {
    let mut back = Back::new("sz000001");
    let add = SnapshotUse::Add("sh600000".to_string());
    assert_eq!(
        back.step(command(ToBackend::StockAdd("sh600000".to_string()))),
        vec![Effect::FetchSnapshot(codes(&["sh600000"]), add.clone())]
    );
    assert_eq!(back.stock_codes(), codes(&["sz000001"]));
    let (code, name, data) = quote_of(LINE);
    assert_eq!(
        back.step(Event::Snapshot(add, Some(format!("{}\n", LINE)))),
        vec![
            Effect::Publish(ToFrontend::Data(code, name, data)),
            kline_fetch("sh600000", 15),
        ]
    );
    assert_eq!(back.stock_codes(), codes(&["sz000001", "sh600000"]));
}

#[test]
fn add_uses_the_resolution_set_before() {
    let mut back = Back::new("");
    back.step(command(ToBackend::StockKLine("sh600000".to_string(), KLineScale::Day)));
    let add = SnapshotUse::Add("sh600000".to_string());
    let effects = back.step(Event::Snapshot(add, Some(LINE.to_string())));
    assert_eq!(effects.len(), 2);
    assert_eq!(effects[1], kline_fetch("sh600000", 240));
}

#[test]
fn add_of_tracked_stock_is_no_op() {
    let mut back = Back::new("sh600000");
    assert_eq!(back.step(command(ToBackend::StockAdd("sh600000".to_string()))), vec![]);
    assert_eq!(back.stock_codes(), codes(&["sh600000"]));
    let add = SnapshotUse::Add("sh600000".to_string());
    assert_eq!(back.step(Event::Snapshot(add, Some(LINE.to_string()))), vec![]);
    assert_eq!(back.stock_codes(), codes(&["sh600000"]));
}

#[test]
fn add_of_what_is_no_stock_code_is_ignored() {
    let mut back = Back::new("");
    assert_eq!(back.step(command(ToBackend::StockAdd("SH600000".to_string()))), vec![]);
    assert_eq!(back.step(command(ToBackend::StockAdd("sh60000".to_string()))), vec![]);
    assert_eq!(back.step(command(ToBackend::StockAdd("xx600000".to_string()))), vec![]);
    assert!(back.stock_codes().is_empty());
}

#[test]
fn add_without_a_quote_tracks_nothing() {
    let mut back = Back::new("");
    let add = || SnapshotUse::Add("sh600000".to_string());
    assert_eq!(back.step(Event::Snapshot(add(), None)), vec![]);
    let empty = "var hq_str_sh600000=\"\";\n".to_string();
    assert_eq!(back.step(Event::Snapshot(add(), Some(empty))), vec![]);
    let other = LINE.replace("sh600000", "sz000001");
    assert_eq!(back.step(Event::Snapshot(add(), Some(other))), vec![]);
    let broken = LINE.replace(",10.050,10.080,", ",?,10.080,");
    assert_eq!(back.step(Event::Snapshot(add(), Some(broken))), vec![]);
    assert!(back.stock_codes().is_empty());
}

#[test]
fn del_refetches_the_rest_once() {
    let mut back = Back::new("sh600000,sz000001,sh600004");
    assert_eq!(
        back.step(command(ToBackend::StockDel("sz000001".to_string()))),
        vec![list_fetch(&["sh600000", "sh600004"])]
    );
    assert_eq!(back.stock_codes(), codes(&["sh600000", "sh600004"]));
}

#[test]
fn del_of_last_stock_silences_the_quote_tick() {
    let mut back = Back::new("sh600000");
    assert_eq!(back.step(command(ToBackend::StockDel("sh600000".to_string()))), vec![]);
    assert!(back.stock_codes().is_empty());
    assert_eq!(back.step(Event::QuoteTick), vec![]);
    assert_eq!(back.step(Event::KlineTick), vec![]);
}

#[test]
fn del_of_untracked_stock_still_refetches() {
    let mut back = Back::new("sh600000");
    assert_eq!(
        back.step(command(ToBackend::StockDel("sz000001".to_string()))),
        vec![list_fetch(&["sh600000"])]
    );
}

#[test]
fn resolution_change_fetches_at_once_and_is_kept() {
    let mut back = Back::new("sh600000");
    let cmd = ToBackend::StockKLine("sh600000".to_string(), KLineScale::Day);
    assert_eq!(back.step(command(cmd)), vec![kline_fetch("sh600000", 240)]);
    assert_eq!(back.kline_scale("sh600000"), KLineScale::Day);
    assert_eq!(back.kline_scale("sz000001"), KLineScale::Munute15);
    let cmd = ToBackend::StockKLine("sh600000".to_string(), KLineScale::Month);
    assert_eq!(back.step(command(cmd)), vec![kline_fetch("sh600000", 60)]);
    assert_eq!(back.kline_scale("sh600000"), KLineScale::Month);
    back.step(command(ToBackend::StockDel("sh600000".to_string())));
    assert_eq!(back.kline_scale("sh600000"), KLineScale::Month);
}

#[test]
fn list_snapshot_is_published_as_one_list() {
    let mut back = Back::new("sh600000,sz000001");
    let second = LINE.replace("sh600000", "sz000001");
    let text = format!("{}\n{}\n", LINE, second);
    assert_eq!(
        back.step(Event::Snapshot(SnapshotUse::List, Some(text))),
        vec![Effect::Publish(ToFrontend::DataList(vec![quote_of(LINE), quote_of(&second)]))]
    );
    assert_eq!(back.step(Event::Snapshot(SnapshotUse::List, None)), vec![]);
}

#[test]
fn list_snapshot_without_quotes_is_an_empty_list() {
    let mut back = Back::new("sh600000");
    assert_eq!(
        back.step(Event::Snapshot(SnapshotUse::List, Some(String::new()))),
        vec![Effect::Publish(ToFrontend::DataList(vec![]))]
    );
}

#[test]
fn kline_answer_is_published_or_dropped() {
    let mut back = Back::new("sh600000");
    let code = || "sh600000".to_string();
    let bar = KlineItem {
        day: Timestamp { year: 2024, month: 9, day: 26, hour: 0, minute: 0, second: 0, nanosecond: 0 },
        open: Decimal::new(1, 0),
        high: Decimal::new(2, 0),
        low: Decimal::new(5, 1),
        close: Decimal::new(15, 1),
        volume: Decimal::new(100, 0),
        amount: Decimal::new(0, 0),
    };
    assert_eq!(
        back.step(Event::Kline(code(), Some(vec![record("2024-09-26")]))),
        vec![Effect::Publish(ToFrontend::Kline(code(), vec![bar]))]
    );
    let records = vec![record("2024-09-26"), record("someday")];
    assert_eq!(back.step(Event::Kline(code(), Some(records))), vec![]);
    assert_eq!(back.step(Event::Kline(code(), None)), vec![]);
    assert_eq!(
        Back::report_klines(code(), Some(vec![record("2024-09-26")])),
        Some(ToFrontend::Kline(code(), vec![bar]))
    );
    assert_eq!(Back::report_klines(code(), Some(vec![record("someday")])), None);
    assert_eq!(Back::report_klines(code(), None), None);
    assert_eq!(
        Back::report_klines(code(), Some(vec![])),
        Some(ToFrontend::Kline(code(), vec![]))
    );
}

#[test]
fn symbol_set_operations() {
    let mut set = SymbolSet::new();
    assert!(set.is_empty());
    assert!(set.insert("sh600000"));
    assert!(!set.insert("sh600000"));
    assert!(!set.insert("hk00700"));
    assert!(set.insert("sz000001"));
    assert_eq!(set.len(), 2);
    assert!(set.contains("sz000001"));
    assert!(!set.contains("sz000002"));
    set.remove("sh600000");
    assert_eq!(set.codes(), codes(&["sz000001"]));
    set.remove("sh600000");
    assert_eq!(set.codes(), codes(&["sz000001"]));
    assert_eq!(set.scale_of("sz000001"), KLineScale::Munute15);
    set.set_scale("sz000001", KLineScale::Hour);
    set.set_scale("sh600000", KLineScale::Day);
    set.set_scale("sz000001", KLineScale::Munute5);
    assert_eq!(set.scale_of("sz000001"), KLineScale::Munute5);
    assert_eq!(set.scale_of("sh600000"), KLineScale::Day);
    let seeded = SymbolSet::from_seed("sz000001,sz000001,x");
    assert_eq!(seeded.codes(), codes(&["sz000001"]));
}

#[test]
fn request_addresses() {
    assert_eq!(
        snapshot_url(&codes(&["sh600000", "sz000001"])),
        "http://hq.sinajs.cn/list=sh600000,sz000001"
    );
    assert_eq!(snapshot_url(&codes(&["sh600000"])), "http://hq.sinajs.cn/list=sh600000");
    assert_eq!(
        kline_url("sh600000", 240, 100),
        "https://quotes.sina.cn/cn/api/json_v2.php/CN_MarketDataService.getKLineData?symbol=sh600000&scale=240&ma=no&datalen=100"
    );
    assert_eq!(
        kline_url("sz000001", KLineScale::Munute5.to_usize(), 7),
        "https://quotes.sina.cn/cn/api/json_v2.php/CN_MarketDataService.getKLineData?symbol=sz000001&scale=5&ma=no&datalen=7"
    );
}

#[test]
fn response_is_read_as_gbk() {
    let mut bytes = b"var hq_str_sh600000=\"".to_vec();
    bytes.extend_from_slice(&[0xC6, 0xD6, 0xB7, 0xA2, 0xD2, 0xF8, 0xD0, 0xD0]);
    bytes.extend_from_slice(b",1\";");
    assert_eq!(
        response_text(&bytes),
        Some("var hq_str_sh600000=\"浦发银行,1\";".to_string())
    );
    assert_eq!(response_text(b""), Some(String::new()));
    assert_eq!(response_text(&[0xFF]), Some("\u{FFFD}".to_string()));
}

#[test]
fn stock_of_the_presentation() {
    let mut stock = Stock::new("sh600000", "浦发银行");
    assert_eq!(stock.code, "sh600000");
    assert_eq!(stock.name, "浦发银行");
    assert_eq!(stock.kline_scale, KLineScale::Munute15);
    assert_eq!(stock.data, BaseData::default());
    assert_eq!(stock.data_new(), Decimal::new(0, 0));
    assert_eq!(stock.data_rise_per(), None);
    assert!(stock.data_bids().is_empty());
    assert!(stock.klines.is_empty());
    assert!(!stock.show_klines_viewport);
    stock.set_data(quote_of(LINE).2);
    assert_eq!(stock.data_new(), Decimal::new(10050, 3));
    assert_eq!(stock.data_close(), Decimal::new(10020, 3));
    assert_eq!(stock.data_open(), Decimal::new(10010, 3));
    assert_eq!(stock.data_hight(), Decimal::new(10080, 3));
    assert_eq!(stock.data_low(), Decimal::new(9990, 3));
    assert_eq!(stock.data_vol(), 234567);
    assert_eq!(stock.data_amount(), Decimal::new(235678901000, 3));
    assert_eq!(stock.data_rise_per(), Some(Decimal::new(30, 2)));
    assert_eq!(stock.data_bids()[0], (123, Decimal::new(10040, 3)));
    assert_eq!(stock.data_asks()[4], (22, Decimal::new(10090, 3)));
    let bar = KlineItem::decode(&record("2024-09-25 10:45:00")).unwrap();
    stock.set_klines(vec![bar]);
    assert_eq!(stock.klines, vec![bar]);
    assert_eq!(stock.code, "sh600000");
}
