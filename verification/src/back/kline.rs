//! Candlestick history: the records of the feed, with every value as text,
//! and the bars that they decode to.

use crate::back::error::DecodeError;
use crate::number::{parse_decimal, Decimal};
use chrono::format::ParseError;
use chrono::{Datelike, NaiveDate, NaiveDateTime, Timelike};
use vstd::prelude::*;

verus! {

/// The form of a bar's `day` that holds a time of day.
pub const DATETIME_FORMAT: &'static str = "%Y-%m-%d %H:%M:%S";

/// The form of a bar's `day` that holds a date alone.
pub const DATE_FORMAT: &'static str = "%Y-%m-%d";

/// chrono's parse error. Nothing is read from it.
#[verifier::external_type_specification]
#[verifier::external_body]
pub struct ExParseError(ParseError);

/// A calendar date.
#[derive(Debug, Clone, Copy, PartialEq, Eq, Structural)]
pub struct Date {
    pub year: i32,
    pub month: u32,
    pub day: u32,
}

/// A calendar date with a time of day, without a time zone.
#[derive(Debug, Clone, Copy, PartialEq, Eq, Structural)]
pub struct Timestamp {
    pub year: i32,
    pub month: u32,
    pub day: u32,
    pub hour: u32,
    pub minute: u32,
    pub second: u32,
    /// Nanoseconds since the whole second; a thousand million and more in a
    /// leap second.
    pub nanosecond: u32,
}

impl Date {
    /// The ranges of a date's month and day.
    pub open spec fn wf(self) -> bool {
        1 <= self.month <= 12 && 1 <= self.day <= 31
    }
}

impl Timestamp {
    /// The ranges of a timestamp's fields.
    pub open spec fn wf(self) -> bool {
        &&& 1 <= self.month <= 12
        &&& 1 <= self.day <= 31
        &&& self.hour <= 23
        &&& self.minute <= 59
        &&& self.second <= 59
        &&& self.nanosecond <= 1_999_999_999
    }

    /// The first instant of `date`.
    pub open spec fn midnight(date: Date) -> Timestamp {
        Timestamp {
            year: date.year,
            month: date.month,
            day: date.day,
            hour: 0,
            minute: 0,
            second: 0,
            nanosecond: 0,
        }
    }

    /// The first instant of `date`.
    pub fn at_midnight(date: Date) -> (t: Timestamp)
        ensures
            t == Timestamp::midnight(date),
    {
        Timestamp {
            year: date.year,
            month: date.month,
            day: date.day,
            hour: 0,
            minute: 0,
            second: 0,
            nanosecond: 0,
        }
    }
}

/// What `NaiveDateTime::parse_from_str` reads from `text` by the format
/// `fmt`; `None` where it returns an error.
pub uninterp spec fn naive_datetime_parse(text: Seq<char>, fmt: Seq<char>) -> Option<Timestamp>;

/// What `NaiveDate::parse_from_str` reads from `text` by the format `fmt`;
/// `None` where it returns an error.
pub uninterp spec fn naive_date_parse(text: Seq<char>, fmt: Seq<char>) -> Option<Date>;

/// Calls chrono's `NaiveDateTime::parse_from_str` and hands out the fields of
/// what it read. Believed: the result is a function of the two texts, and
/// the fields are in the ranges that chrono documents for `month`, `day`,
/// `hour`, `minute`, `second` and `nanosecond`.
#[verifier::external_body]
fn parse_naive_datetime(text: &str, fmt: &str) -> (r: Result<Timestamp, ParseError>)
    ensures
        r.is_ok() == naive_datetime_parse(text@, fmt@).is_some(),
        r matches Ok(t) ==> naive_datetime_parse(text@, fmt@) == Some(t) && t.wf(),
{
    NaiveDateTime::parse_from_str(text, fmt).map(
        |d| Timestamp {
            year: d.year(),
            month: d.month(),
            day: d.day(),
            hour: d.hour(),
            minute: d.minute(),
            second: d.second(),
            nanosecond: d.nanosecond(),
        },
    )
}

/// Calls chrono's `NaiveDate::parse_from_str` and hands out the fields of
/// what it read. Believed: the result is a function of the two texts, and
/// the fields are in the ranges that chrono documents for `month` and `day`.
#[verifier::external_body]
fn parse_naive_date(text: &str, fmt: &str) -> (r: Result<Date, ParseError>)
    ensures
        r.is_ok() == naive_date_parse(text@, fmt@).is_some(),
        r matches Ok(d) ==> naive_date_parse(text@, fmt@) == Some(d) && d.wf(),
{
    NaiveDate::parse_from_str(text, fmt).map(
        |d| Date { year: d.year(), month: d.month(), day: d.day() },
    )
}

/// The timestamp of a bar whose `day` read as `with_time` in the form with a
/// time and as `date_only` in the form without: the first where there is
/// one, else the second at midnight.
pub open spec fn resolve_day(with_time: Option<Timestamp>, date_only: Option<Date>) -> Option<
    Timestamp,
> {
    match with_time {
        Some(t) => Some(t),
        None => match date_only {
            Some(d) => Some(Timestamp::midnight(d)),
            None => None,
        },
    }
}

/// The timestamp that a bar's `day` holds.
pub open spec fn day_of(text: Seq<char>) -> Option<Timestamp> {
    resolve_day(
        naive_datetime_parse(text, DATETIME_FORMAT@),
        naive_date_parse(text, DATE_FORMAT@),
    )
}

/// Reads a bar's `day`: in the form with a time first, then in the form
/// without.
pub fn read_day(text: &str) -> (r: Option<Timestamp>)
    ensures
        r == day_of(text@),
        r matches Some(t) ==> t.wf(),
{
    match parse_naive_datetime(text, DATETIME_FORMAT) {
        Ok(t) => Some(t),
        Err(_) => match parse_naive_date(text, DATE_FORMAT) {
            Ok(d) => Some(Timestamp::at_midnight(d)),
            Err(_) => None,
        },
    }
}

/// One record of the candlestick endpoint, every value as the text it came
/// in.
#[derive(Default, Debug, Clone, PartialEq, Eq)]
pub struct KlineItemD {
    pub day: String,
    pub open: String,
    pub high: String,
    pub low: String,
    pub close: String,
    pub volume: String,
    pub amount: Option<String>,
}

/// What a [`KlineItemD`] holds.
pub struct KlineItemDView {
    pub day: Seq<char>,
    pub open: Seq<char>,
    pub high: Seq<char>,
    pub low: Seq<char>,
    pub close: Seq<char>,
    pub volume: Seq<char>,
    pub amount: Option<Seq<char>>,
}

impl View for KlineItemD {
    type V = KlineItemDView;

    open spec fn view(&self) -> KlineItemDView {
        KlineItemDView {
            day: self.day@,
            open: self.open@,
            high: self.high@,
            low: self.low@,
            close: self.close@,
            volume: self.volume@,
            amount: match self.amount {
                Some(text) => Some(text@),
                None => None,
            },
        }
    }
}

impl DeepView for KlineItemD {
    type V = KlineItemDView;

    open spec fn deep_view(&self) -> KlineItemDView {
        self@
    }
}

/// One candlestick bar.
#[derive(Debug, Clone, Copy, PartialEq, Eq, Structural)]
pub struct KlineItem {
    pub day: Timestamp,
    pub open: Decimal,
    pub high: Decimal,
    pub low: Decimal,
    pub close: Decimal,
    pub volume: Decimal,
    /// The turnover; zero where the record has none.
    pub amount: Decimal,
}

impl View for KlineItem {
    type V = KlineItem;

    open spec fn view(&self) -> KlineItem {
        *self
    }
}

impl DeepView for KlineItem {
    type V = KlineItem;

    open spec fn deep_view(&self) -> KlineItem {
        *self
    }
}

/// The amount of a record: zero where it has none.
pub open spec fn amount_of(text: Option<Seq<char>>) -> Option<Decimal> {
    match text {
        Some(t) => parse_decimal(t),
        None => Some(Decimal { mantissa: 0, scale: 0 }),
    }
}

/// The bar of a record whose `day` holds `day`: the timestamp error where
/// it holds none, the number error where a value is no number.
pub open spec fn bar_with_day(day: Option<Timestamp>, r: KlineItemDView) -> Result<
    KlineItem,
    DecodeError,
> {
    if day.is_none() {
        Err(DecodeError::Timestamp)
    } else if parse_decimal(r.open).is_none() || parse_decimal(r.high).is_none() || parse_decimal(
        r.low,
    ).is_none() || parse_decimal(r.close).is_none() || parse_decimal(r.volume).is_none()
        || amount_of(r.amount).is_none() {
        Err(DecodeError::Number)
    } else {
        Ok(
            KlineItem {
                day: day.unwrap(),
                open: parse_decimal(r.open).unwrap(),
                high: parse_decimal(r.high).unwrap(),
                low: parse_decimal(r.low).unwrap(),
                close: parse_decimal(r.close).unwrap(),
                volume: parse_decimal(r.volume).unwrap(),
                amount: amount_of(r.amount).unwrap(),
            },
        )
    }
}

/// The bar that a record decodes to.
pub open spec fn decode_bar(r: KlineItemDView) -> Result<KlineItem, DecodeError> {
    bar_with_day(day_of(r.day), r)
}

/// The bars that the records decode to, in the records' order; the error of
/// the first record that has one, and then no bar at all.
pub open spec fn decode_bars(records: Seq<KlineItemDView>) -> Result<Seq<KlineItem>, DecodeError>
    decreases records.len(),
{
    if records.len() == 0 {
        Ok(Seq::empty())
    } else {
        match decode_bars(records.drop_last()) {
            Err(e) => Err(e),
            Ok(bars) => match decode_bar(records.last()) {
                Err(e) => Err(e),
                Ok(bar) => Ok(bars.push(bar)),
            },
        }
    }
}

/// What decoded bars are in the terms of [`decode_bars`].
pub open spec fn bars_view(r: Result<Vec<KlineItem>, DecodeError>) -> Result<
    Seq<KlineItem>,
    DecodeError,
> {
    match r {
        Ok(bars) => Ok(bars@),
        Err(e) => Err(e),
    }
}

impl KlineItem {
    /// The bars that decoding yields: a timestamp and decimals within their
    /// bounds.
    pub open spec fn wf(self) -> bool {
        &&& self.day.wf()
        &&& self.open.wf()
        &&& self.high.wf()
        &&& self.low.wf()
        &&& self.close.wf()
        &&& self.volume.wf()
        &&& self.amount.wf()
    }

    /// Builds the bar of a record whose `day` was read as `day`.
    pub fn with_day(day: Option<Timestamp>, item: &KlineItemD) -> (r: Result<
        KlineItem,
        DecodeError,
    >)
        ensures
            r == bar_with_day(day, item@),
            r matches Ok(bar) ==> (day.unwrap().wf() ==> bar.wf()),
    {
        let day = match day {
            Some(t) => t,
            None => {
                return Err(DecodeError::Timestamp);
            },
        };
        let open = Decimal::parse(item.open.as_str());
        let high = Decimal::parse(item.high.as_str());
        let low = Decimal::parse(item.low.as_str());
        let close = Decimal::parse(item.close.as_str());
        let volume = Decimal::parse(item.volume.as_str());
        let amount = match &item.amount {
            Some(text) => Decimal::parse(text.as_str()),
            None => Some(Decimal { mantissa: 0, scale: 0 }),
        };
        if open.is_none() || high.is_none() || low.is_none() || close.is_none() || volume.is_none()
            || amount.is_none() {
            return Err(DecodeError::Number);
        }
        Ok(
            KlineItem {
                day,
                open: open.unwrap(),
                high: high.unwrap(),
                low: low.unwrap(),
                close: close.unwrap(),
                volume: volume.unwrap(),
                amount: amount.unwrap(),
            },
        )
    }

    /// Decodes one record.
    pub fn decode(item: &KlineItemD) -> (r: Result<KlineItem, DecodeError>)
        ensures
            r == decode_bar(item@),
            r matches Ok(bar) ==> bar.wf(),
    {
        let day = read_day(item.day.as_str());
        KlineItem::with_day(day, item)
    }
}

/// Decodes the records of one response, oldest first as they came.
pub fn decode_klines(records: &Vec<KlineItemD>) -> (r: Result<Vec<KlineItem>, DecodeError>)
    ensures
        bars_view(r) == decode_bars(records.deep_view()),
        r matches Ok(bars) ==> forall|i: int| 0 <= i < bars@.len() ==> (#[trigger] bars@[i]).wf(),
{
    let mut bars: Vec<KlineItem> = Vec::new();
    let mut i: usize = 0;
    proof {
        assert(records.deep_view().take(0) =~= Seq::<KlineItemDView>::empty());
    }
    while i < records.len()
        invariant
            i <= records.len(),
            decode_bars(records.deep_view().take(i as int)) == Ok::<Seq<KlineItem>, DecodeError>(
                bars@,
            ),
            forall|j: int| 0 <= j < bars@.len() ==> (#[trigger] bars@[j]).wf(),
        decreases records.len() - i,
    {
        proof {
            let next = records.deep_view().take(i + 1);
            assert(next.drop_last() =~= records.deep_view().take(i as int));
            assert(next.last() == records@[i as int]@);
        }
        match KlineItem::decode(&records[i]) {
            Ok(bar) => {
                bars.push(bar);
            },
            Err(e) => {
                proof {
                    lemma_bars_fail(records.deep_view(), i + 1, e);
                }
                return Err(e);
            },
        }
        i += 1;
    }
    proof {
        assert(records.deep_view().take(i as int) =~= records.deep_view());
    }
    Ok(bars)
}

/// Records whose first `n` fail with `e` fail with `e` as a whole.
proof fn lemma_bars_fail(records: Seq<KlineItemDView>, n: int, e: DecodeError)
    requires
        0 <= n <= records.len(),
        decode_bars(records.take(n)) == Err::<Seq<KlineItem>, DecodeError>(e),
    ensures
        decode_bars(records) == Err::<Seq<KlineItem>, DecodeError>(e),
    decreases records.len() - n,
{
    if n == records.len() {
        assert(records.take(n) =~= records);
    } else {
        assert(records.take(n + 1).drop_last() =~= records.take(n));
        lemma_bars_fail(records, n + 1, e);
    }
}

/// Bars come out in the order of their records, one for each: the bar at
/// every position is the one that the record at that position decodes to.
pub proof fn lemma_bars_in_order(records: Seq<KlineItemDView>)
    ensures
        decode_bars(records) matches Ok(bars) ==> bars.len() == records.len() && forall|i: int|
            0 <= i < records.len() ==> decode_bar(#[trigger] records[i]) == Ok::<
                KlineItem,
                DecodeError,
            >(bars[i]),
        decode_bars(records).is_ok() <==> forall|i: int|
            0 <= i < records.len() ==> decode_bar(#[trigger] records[i]).is_ok(),
    decreases records.len(),
{
    if records.len() > 0 {
        let init = records.drop_last();
        lemma_bars_in_order(init);
        assert forall|i: int| 0 <= i < init.len() implies init[i] == records[i] by {}
        if decode_bars(records).is_ok() {
            assert forall|i: int| 0 <= i < records.len() implies decode_bar(
                #[trigger] records[i],
            ).is_ok() by {
                if i < init.len() {
                    assert(decode_bar(init[i]).is_ok());
                }
            }
        }
        if forall|i: int| 0 <= i < records.len() ==> decode_bar(#[trigger] records[i]).is_ok() {
            assert forall|i: int| 0 <= i < init.len() implies decode_bar(#[trigger] init[i]).is_ok() by {
                assert(decode_bar(records[i]).is_ok());
            }
            assert(decode_bar(records.last()).is_ok());
        }
        if let Ok(bars) = decode_bars(records) {
            assert forall|i: int| 0 <= i < records.len() implies decode_bar(#[trigger] records[i])
                == Ok::<KlineItem, DecodeError>(bars[i]) by {
                if i < init.len() {
                    assert(decode_bar(init[i]).is_ok());
                }
            }
        }
    }
}

} // verus!
