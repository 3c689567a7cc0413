//! Stock codes, candlestick resolutions and the snapshot quote of one stock.

use crate::back::kline::KlineItem;
use crate::number::Decimal;
use crate::text::{is_digit, is_digit_char, to_chars, to_string};
use vstd::prelude::*;

verus! {

/// A traded volume, in lots of a hundred shares.
pub type Vol = u64;

/// A price, exact to the digits that the feed gave.
pub type Price = Decimal;

/// The snapshot quote of one stock.
#[derive(Clone, Debug, PartialEq, Eq)]
pub struct BaseData {
    pub date: String,
    pub time: String,
    pub opening: Price,
    /// The close of the day before.
    pub closing: Price,
    pub hight: Price,
    pub low: Price,
    pub vol: Vol,
    pub amount: Decimal,
    pub bid: Price,
    pub ask: Price,
    /// The last price.
    pub new: Price,
    /// The change from `closing` to `new` in percent, to two decimals; `None`
    /// where `closing` is zero.
    pub rise_per: Option<Decimal>,
    /// The five best bids, best first.
    pub bids: Vec<(Vol, Price)>,
    /// The five best asks, best first.
    pub asks: Vec<(Vol, Price)>,
}

/// What a [`BaseData`] holds.
pub struct BaseDataView {
    pub date: Seq<char>,
    pub time: Seq<char>,
    pub opening: Price,
    pub closing: Price,
    pub hight: Price,
    pub low: Price,
    pub vol: Vol,
    pub amount: Decimal,
    pub bid: Price,
    pub ask: Price,
    pub new: Price,
    pub rise_per: Option<Decimal>,
    pub bids: Seq<(Vol, Price)>,
    pub asks: Seq<(Vol, Price)>,
}

impl View for BaseData {
    type V = BaseDataView;

    open spec fn view(&self) -> BaseDataView {
        BaseDataView {
            date: self.date@,
            time: self.time@,
            opening: self.opening,
            closing: self.closing,
            hight: self.hight,
            low: self.low,
            vol: self.vol,
            amount: self.amount,
            bid: self.bid,
            ask: self.ask,
            new: self.new,
            rise_per: self.rise_per,
            bids: self.bids@,
            asks: self.asks@,
        }
    }
}

impl BaseData {
    /// The quotes that decoding yields and encoding takes: five levels on
    /// each side of the book, and every decimal within its bounds.
    pub open spec fn wf(&self) -> bool {
        self@.wf()
    }
}

impl BaseDataView {
    pub open spec fn wf(self) -> bool {
        &&& self.opening.wf()
        &&& self.closing.wf()
        &&& self.hight.wf()
        &&& self.low.wf()
        &&& self.amount.wf()
        &&& self.bid.wf()
        &&& self.ask.wf()
        &&& self.new.wf()
        &&& self.bids.len() == 5
        &&& self.asks.len() == 5
        &&& forall|i: int| 0 <= i < self.bids.len() ==> (#[trigger] self.bids[i]).1.wf()
        &&& forall|i: int| 0 <= i < self.asks.len() ==> (#[trigger] self.asks[i]).1.wf()
    }
}

impl DeepView for BaseData {
    type V = BaseDataView;

    open spec fn deep_view(&self) -> BaseDataView {
        self@
    }
}

/// The period that one candlestick bar covers.
#[derive(Default, Debug, Clone, Copy, PartialEq, Eq, Structural)]
pub enum KLineScale {
    Munute5,
    #[default]
    Munute15,
    Munute30,
    Hour,
    Day,
    Week,
    Month,
}

impl View for KLineScale {
    type V = KLineScale;

    open spec fn view(&self) -> KLineScale {
        *self
    }
}

impl DeepView for KLineScale {
    type V = KLineScale;

    open spec fn deep_view(&self) -> KLineScale {
        *self
    }
}

impl KLineScale {
    /// The `scale` parameter that the candlestick endpoint takes for this
    /// period. `Month` goes by the code of `Hour`: the feed knows no other.
    pub open spec fn scale_code(self) -> nat {
        match self {
            KLineScale::Munute5 => 5,
            KLineScale::Munute15 => 15,
            KLineScale::Munute30 => 30,
            KLineScale::Hour => 60,
            KLineScale::Day => 240,
            KLineScale::Week => 1200,
            KLineScale::Month => 60,
        }
    }

    pub fn to_usize(&self) -> (r: usize)
        ensures
            r == self.scale_code(),
    {
        match self {
            KLineScale::Munute5 => 5,
            KLineScale::Munute15 => 15,
            KLineScale::Munute30 => 30,
            KLineScale::Hour => 60,
            KLineScale::Day => 240,
            KLineScale::Week => 1200,
            KLineScale::Month => 60,
        }
    }
}

/// A stock code: `sh` or `sz`, then six decimal digits.
pub open spec fn is_stock_code(s: Seq<char>) -> bool {
    &&& s.len() == 8
    &&& s[0] == 's'
    &&& (s[1] == 'h' || s[1] == 'z')
    &&& forall|i: int| 2 <= i < 8 ==> is_digit(#[trigger] s[i])
}

/// Whether `code` has the form of a stock code.
pub fn check_stock_code(code: &str) -> (r: bool)
    ensures
        r == is_stock_code(code@),
{
    let chars = to_chars(code);
    check_code_chars(chars.as_slice())
}

/// Whether the characters `s` have the form of a stock code.
pub(crate) fn check_code_chars(s: &[char]) -> (r: bool)
    ensures
        r == is_stock_code(s@),
{
    if s.len() != 8 || s[0] != 's' || (s[1] != 'h' && s[1] != 'z') {
        return false;
    }
    let mut i: usize = 2;
    while i < 8
        invariant
            2 <= i <= 8,
            s.len() == 8,
            forall|j: int| 2 <= j < i ==> is_digit(#[trigger] s@[j]),
        decreases 8 - i,
    {
        if !is_digit_char(s[i]) {
            return false;
        }
        i += 1;
    }
    true
}

impl BaseDataView {
    /// The quote of a stock of which nothing is known yet: no texts, zeros,
    /// no change, no levels.
    pub open spec fn empty() -> BaseDataView {
        let zero = Decimal { mantissa: 0, scale: 0 };
        BaseDataView {
            date: Seq::empty(),
            time: Seq::empty(),
            opening: zero,
            closing: zero,
            hight: zero,
            low: zero,
            vol: 0,
            amount: zero,
            bid: zero,
            ask: zero,
            new: zero,
            rise_per: None,
            bids: Seq::empty(),
            asks: Seq::empty(),
        }
    }
}

impl Default for BaseData {
    fn default() -> (data: BaseData)
        ensures
            data@ == BaseDataView::empty(),
    {
        let zero = Decimal { mantissa: 0, scale: 0 };
        BaseData {
            date: String::new(),
            time: String::new(),
            opening: zero,
            closing: zero,
            hight: zero,
            low: zero,
            vol: 0,
            amount: zero,
            bid: zero,
            ask: zero,
            new: zero,
            rise_per: None,
            bids: Vec::new(),
            asks: Vec::new(),
        }
    }
}

/// What the presentation keeps of one stock.
#[derive(Clone, Debug, PartialEq, Eq)]
pub struct Stock {
    pub kline_scale: KLineScale,
    pub name: String,
    pub code: String,
    pub data: BaseData,
    pub klines: Vec<KlineItem>,
    pub show_klines_viewport: bool,
}

impl Stock {
    /// A stock of which no quote and no bar is known yet, at the resolution
    /// of fifteen minutes.
    pub fn new(code: &str, name: &str) -> (stock: Stock)
        ensures
            stock.code@ == code@,
            stock.name@ == name@,
            stock.kline_scale == KLineScale::Munute15,
            stock.data@ == BaseDataView::empty(),
            stock.klines@ == Seq::<KlineItem>::empty(),
            !stock.show_klines_viewport,
    {
        let code_chars = to_chars(code);
        let name_chars = to_chars(name);
        Stock {
            kline_scale: KLineScale::Munute15,
            name: to_string(name_chars.as_slice()),
            code: to_string(code_chars.as_slice()),
            data: BaseData::default(),
            klines: Vec::new(),
            show_klines_viewport: false,
        }
    }

    pub fn set_data(&mut self, data: BaseData)
        ensures
            final(self).data == data,
            final(self).kline_scale == old(self).kline_scale,
            final(self).name == old(self).name,
            final(self).code == old(self).code,
            final(self).klines == old(self).klines,
            final(self).show_klines_viewport == old(self).show_klines_viewport,
    {
        self.data = data;
    }

    pub fn set_klines(&mut self, klines: Vec<KlineItem>)
        ensures
            final(self).klines == klines,
            final(self).kline_scale == old(self).kline_scale,
            final(self).name == old(self).name,
            final(self).code == old(self).code,
            final(self).data == old(self).data,
            final(self).show_klines_viewport == old(self).show_klines_viewport,
    {
        self.klines = klines;
    }

    /// The last price.
    pub fn data_new(&self) -> (r: Price)
        ensures
            r == self.data.new,
    {
        self.data.new
    }

    /// The close of the day before.
    pub fn data_close(&self) -> (r: Price)
        ensures
            r == self.data.closing,
    {
        self.data.closing
    }

    pub fn data_open(&self) -> (r: Price)
        ensures
            r == self.data.opening,
    {
        self.data.opening
    }

    /// The change in percent, where there is one.
    pub fn data_rise_per(&self) -> (r: Option<Decimal>)
        ensures
            r == self.data.rise_per,
    {
        self.data.rise_per
    }

    pub fn data_hight(&self) -> (r: Price)
        ensures
            r == self.data.hight,
    {
        self.data.hight
    }

    pub fn data_low(&self) -> (r: Price)
        ensures
            r == self.data.low,
    {
        self.data.low
    }

    pub fn data_vol(&self) -> (r: Vol)
        ensures
            r == self.data.vol,
    {
        self.data.vol
    }

    pub fn data_amount(&self) -> (r: Decimal)
        ensures
            r == self.data.amount,
    {
        self.data.amount
    }

    pub fn data_bids(&self) -> (r: &Vec<(Vol, Price)>)
        ensures
            r == &self.data.bids,
    {
        &self.data.bids
    }

    pub fn data_asks(&self) -> (r: &Vec<(Vol, Price)>)
        ensures
            r == &self.data.asks,
    {
        &self.data.asks
    }
}

} // verus!
