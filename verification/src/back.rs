//! The background engine: what it tracks, what it is told, what it reports,
//! and the decoders of what it fetches.
//!
//! The engine decides and does nothing else. Each event gives it a turn, in
//! which it changes what it tracks and names the effects that follow: a
//! fetch, whose answer comes back as an event of its own, a report to the
//! presentation, or a new period of the quote timer. Whoever runs the engine
//! waits for the events and carries the effects out.

pub mod error;
pub mod fetch;
pub mod kline;
pub mod message;
pub mod quote;
pub mod stock;
pub mod symbols;

use crate::back::fetch::KLINE_DATALEN;
use crate::back::kline::{decode_bars, decode_klines, KlineItemD, KlineItemDView};
use crate::back::message::{ToBackend, ToBackendView, ToFrontend, ToFrontendView};
use crate::back::quote::{decode_response, decode_snapshot, QuoteView};
use crate::back::stock::{check_stock_code, is_stock_code, KLineScale};
use crate::back::symbols::{
    lemma_admitted_valid, lemma_without, lemma_without_valid, same_text, seed_codes,
    valid_codes, without, SymbolSet, SymbolSetView,
};
use crate::text::texts;
use vstd::prelude::*;

verus! {

/// The period of the quote timer at the start, in milliseconds.
pub const QUOTE_INTERVAL_MS: u32 = 200;

/// The period of the candlestick timer, in seconds.
pub const KLINE_INTERVAL_SECS: u64 = 60;

/// What a snapshot is fetched for.
#[derive(Debug, Clone, PartialEq, Eq)]
pub enum SnapshotUse {
    /// The list of all tracked stocks.
    List,
    /// The admission of the stock of this code.
    Add(String),
}

/// What a [`SnapshotUse`] holds.
pub enum SnapshotUseView {
    List,
    Add(Seq<char>),
}

impl View for SnapshotUse {
    type V = SnapshotUseView;

    open spec fn view(&self) -> SnapshotUseView {
        match self {
            SnapshotUse::List => SnapshotUseView::List,
            SnapshotUse::Add(code) => SnapshotUseView::Add(code@),
        }
    }
}

/// What happens outside the engine and gives it a turn.
#[derive(Debug, Clone, PartialEq, Eq)]
pub enum Event {
    /// The engine starts.
    Start,
    /// The presentation sent a command.
    Message(ToBackend),
    /// The quote timer fired.
    QuoteTick,
    /// The candlestick timer fired.
    KlineTick,
    /// A snapshot fetch ended: with the response's text, or without one
    /// where the transport failed.
    Snapshot(SnapshotUse, Option<String>),
    /// The candlestick fetch for the stock of this code ended: with the
    /// response's records, or without where the transport failed.
    Kline(String, Option<Vec<KlineItemD>>),
}

/// What an [`Event`] holds.
pub enum EventView {
    Start,
    Message(ToBackendView),
    QuoteTick,
    KlineTick,
    Snapshot(SnapshotUseView, Option<Seq<char>>),
    Kline(Seq<char>, Option<Seq<KlineItemDView>>),
}

impl View for Event {
    type V = EventView;

    open spec fn view(&self) -> EventView {
        match self {
            Event::Start => EventView::Start,
            Event::Message(m) => EventView::Message(m@),
            Event::QuoteTick => EventView::QuoteTick,
            Event::KlineTick => EventView::KlineTick,
            Event::Snapshot(purpose, text) => EventView::Snapshot(
                purpose@,
                match text {
                    Some(t) => Some(t@),
                    None => None,
                },
            ),
            Event::Kline(code, records) => EventView::Kline(
                code@,
                match records {
                    Some(r) => Some(r.deep_view()),
                    None => None,
                },
            ),
        }
    }
}

/// What the engine asks to be done after a turn.
#[derive(Debug, Clone, PartialEq, Eq)]
pub enum Effect {
    /// Fetch one snapshot of these codes, and hand the answer back as
    /// [`Event::Snapshot`] with this use.
    FetchSnapshot(Vec<String>, SnapshotUse),
    /// Fetch so many bars of the stock of this code at this resolution code,
    /// and hand the answer back as [`Event::Kline`].
    FetchKline(String, usize, u32),
    /// Send this report to the presentation, whether it listens or not.
    Publish(ToFrontend),
    /// Let the quote timer fire every so many milliseconds from now on.
    SetTicker(u32),
}

/// What an [`Effect`] holds.
pub enum EffectView {
    FetchSnapshot(Seq<Seq<char>>, SnapshotUseView),
    FetchKline(Seq<char>, nat, nat),
    Publish(ToFrontendView),
    SetTicker(u32),
}

impl View for Effect {
    type V = EffectView;

    open spec fn view(&self) -> EffectView {
        match self {
            Effect::FetchSnapshot(codes, purpose) => EffectView::FetchSnapshot(
                texts(codes@),
                purpose@,
            ),
            Effect::FetchKline(code, scale, datalen) => EffectView::FetchKline(
                code@,
                *scale as nat,
                *datalen as nat,
            ),
            Effect::Publish(m) => EffectView::Publish(m@),
            Effect::SetTicker(ms) => EffectView::SetTicker(*ms),
        }
    }
}

/// The views of the effects that a vector holds.
pub open spec fn effects_view(v: Seq<Effect>) -> Seq<EffectView> {
    Seq::new(v.len(), |i: int| v[i]@)
}

/// The engine's state: what it tracks, and the period of its quote timer.
pub struct Back {
    symbols: SymbolSet,
    interval: u32,
}

/// What a [`Back`] holds.
pub struct BackView {
    pub symbols: SymbolSetView,
    /// The period of the quote timer, in milliseconds.
    pub interval: u32,
}

impl View for Back {
    type V = BackView;

    closed spec fn view(&self) -> BackView {
        BackView { symbols: self.symbols@, interval: self.interval }
    }
}

impl BackView {
    /// The state's invariant: that of the set, and a period that is not
    /// zero.
    pub open spec fn wf(self) -> bool {
        self.symbols.wf() && self.interval > 0
    }

    /// The fetch of the bars of `code`, at the resolution that the set holds
    /// for it.
    pub open spec fn kline_fetch(self, code: Seq<char>) -> EffectView {
        EffectView::FetchKline(
            code,
            self.symbols.scale_of(code).scale_code(),
            KLINE_DATALEN as nat,
        )
    }

    /// The snapshot of all tracked stocks in one fetch; nothing where none
    /// is tracked.
    pub open spec fn refetch_data(self) -> Seq<EffectView> {
        if self.symbols.codes.len() == 0 {
            Seq::empty()
        } else {
            seq![EffectView::FetchSnapshot(self.symbols.codes, SnapshotUseView::List)]
        }
    }

    /// The bars of every tracked stock, one fetch for each, in the order of
    /// the set.
    pub open spec fn refresh_kline(self) -> Seq<EffectView> {
        Seq::new(self.symbols.codes.len(), |i: int| self.kline_fetch(self.symbols.codes[i]))
    }

    /// Whether the stock of `code` can be admitted: it is a stock code and
    /// is not tracked.
    pub open spec fn admits(self, code: Seq<char>) -> bool {
        is_stock_code(code) && !self.symbols.codes.contains(code)
    }

    /// The state with the codes `codes`.
    pub open spec fn with_codes(self, codes: Seq<Seq<char>>) -> BackView {
        BackView {
            symbols: SymbolSetView { codes, scales: self.symbols.scales },
            interval: self.interval,
        }
    }

    /// The turn that a command takes.
    pub open spec fn on_message(self, m: ToBackendView) -> (BackView, Seq<EffectView>) {
        match m {
            ToBackendView::Refresh => (self, self.refetch_data()),
            ToBackendView::SetInterval(ms) => if ms == 0 {
                (self, Seq::empty())
            } else {
                (
                    BackView { symbols: self.symbols, interval: ms },
                    seq![EffectView::SetTicker(ms)],
                )
            },
            ToBackendView::StockAdd(code) => if self.admits(code) {
                (self, seq![EffectView::FetchSnapshot(seq![code], SnapshotUseView::Add(code))])
            } else {
                (self, Seq::empty())
            },
            ToBackendView::StockDel(code) => {
                let next = self.with_codes(without(self.symbols.codes, code));
                (next, next.refetch_data())
            },
            ToBackendView::StockKLine(code, scale) => {
                let next = BackView {
                    symbols: SymbolSetView {
                        codes: self.symbols.codes,
                        scales: self.symbols.scales.insert(code, scale),
                    },
                    interval: self.interval,
                };
                (next, seq![next.kline_fetch(code)])
            },
        }
    }

    /// The turn that the end of a snapshot fetch takes.
    pub open spec fn on_snapshot(self, purpose: SnapshotUseView, text: Option<Seq<char>>) -> (
        BackView,
        Seq<EffectView>,
    ) {
        match (purpose, text) {
            (_, None) => (self, Seq::empty()),
            (SnapshotUseView::List, Some(t)) => (
                self,
                seq![EffectView::Publish(ToFrontendView::DataList(decode_response(t)))],
            ),
            (SnapshotUseView::Add(code), Some(t)) => match first_quote(decode_response(t), code) {
                Some(q) => if self.admits(code) {
                    (
                        self.with_codes(self.symbols.codes.push(code)),
                        seq![
                            EffectView::Publish(ToFrontendView::Data(q.0, q.1, q.2)),
                            self.kline_fetch(code),
                        ],
                    )
                } else {
                    (self, Seq::empty())
                },
                None => (self, Seq::empty()),
            },
        }
    }

    /// The turn that the end of a candlestick fetch takes.
    pub open spec fn on_kline(self, code: Seq<char>, records: Option<Seq<KlineItemDView>>) -> (
        BackView,
        Seq<EffectView>,
    ) {
        match kline_report(code, records) {
            Some(report) => (self, seq![EffectView::Publish(report)]),
            None => (self, Seq::empty()),
        }
    }

    /// The turn that an event takes: the state after it, and the effects in
    /// the order in which they are to be carried out.
    pub open spec fn step(self, event: EventView) -> (BackView, Seq<EffectView>) {
        match event {
            EventView::Start => (self, self.refetch_data() + self.refresh_kline()),
            EventView::Message(m) => self.on_message(m),
            EventView::QuoteTick => (self, self.refetch_data()),
            EventView::KlineTick => (self, self.refresh_kline()),
            EventView::Snapshot(purpose, text) => self.on_snapshot(purpose, text),
            EventView::Kline(code, records) => self.on_kline(code, records),
        }
    }
}

/// The report that the end of a candlestick fetch for `code` is worth: the
/// bars, where the fetch brought records and all of them decode; else none.
pub open spec fn kline_report(code: Seq<char>, records: Option<Seq<KlineItemDView>>) -> Option<
    ToFrontendView,
> {
    match records {
        Some(r) => match decode_bars(r) {
            Ok(bars) => Some(ToFrontendView::Kline(code, bars)),
            Err(_) => None,
        },
        None => None,
    }
}

/// What a report is in the terms of [`kline_report`].
pub open spec fn report_view(r: Option<ToFrontend>) -> Option<ToFrontendView> {
    match r {
        Some(m) => Some(m@),
        None => None,
    }
}

/// The first of `quotes` that is of the stock `code`.
pub open spec fn first_quote(quotes: Seq<QuoteView>, code: Seq<char>) -> Option<QuoteView>
    decreases quotes.len(),
{
    if quotes.len() == 0 {
        None
    } else if quotes[0].0 == code {
        Some(quotes[0])
    } else {
        first_quote(quotes.skip(1), code)
    }
}

/// The first quote of a code is the one that no quote of that code stands
/// before.
proof fn lemma_first_quote(quotes: Seq<QuoteView>, code: Seq<char>, i: int)
    requires
        0 <= i <= quotes.len(),
        forall|j: int| 0 <= j < i ==> (#[trigger] quotes[j]).0 != code,
        i < quotes.len() ==> quotes[i].0 == code,
    ensures
        first_quote(quotes, code) == if i < quotes.len() {
            Some(quotes[i])
        } else {
            None
        },
    decreases quotes.len(),
{
    if quotes.len() > 0 && i > 0 {
        let rest = quotes.skip(1);
        assert forall|j: int| 0 <= j < i - 1 implies (#[trigger] rest[j]).0 != code by {
            assert(rest[j] == quotes[j + 1]);
        }
        lemma_first_quote(rest, code, i - 1);
    }
}

fn no_effect() -> (effects: Vec<Effect>)
    ensures
        effects_view(effects@) == Seq::<EffectView>::empty(),
{
    let effects: Vec<Effect> = Vec::new();
    proof {
        assert(effects_view(effects@) =~= Seq::<EffectView>::empty());
    }
    effects
}

fn one_effect(effect: Effect) -> (effects: Vec<Effect>)
    ensures
        effects_view(effects@) == seq![effect@],
{
    let mut effects: Vec<Effect> = Vec::new();
    effects.push(effect);
    proof {
        assert(effects_view(effects@) =~= seq![effect@]);
    }
    effects
}

impl Back {
    /// The state's invariant.
    pub open spec fn wf(&self) -> bool {
        self@.wf()
    }

    /// The engine that tracks the stock codes of the seed, which commas
    /// separate, with the quote timer at its first period.
    pub fn new(codes: &str) -> (back: Back)
        ensures
            back.wf(),
            back@.symbols.codes == seed_codes(codes@),
            back@.symbols.scales == Map::<Seq<char>, KLineScale>::empty(),
            back@.interval == QUOTE_INTERVAL_MS,
    {
        Back { symbols: SymbolSet::from_seed(codes), interval: QUOTE_INTERVAL_MS }
    }

    /// The period of the quote timer, in milliseconds.
    pub fn interval(&self) -> (ms: u32)
        ensures
            ms == self@.interval,
    {
        self.interval
    }

    /// The tracked codes, in the order of their admission.
    pub fn stock_codes(&self) -> (codes: Vec<String>)
        ensures
            texts(codes@) == self@.symbols.codes,
    {
        self.symbols.codes()
    }

    /// The resolution that the bars of `code` are asked at.
    pub fn kline_scale(&self, code: &str) -> (scale: KLineScale)
        ensures
            scale == self@.symbols.scale_of(code@),
    {
        self.symbols.scale_of(code)
    }

    fn kline_fetch(&self, code: String) -> (effect: Effect)
        ensures
            effect@ == self@.kline_fetch(code@),
    {
        let scale = self.symbols.scale_of(code.as_str()).to_usize();
        Effect::FetchKline(code, scale, KLINE_DATALEN)
    }

    /// The fetch of the snapshot of all tracked stocks.
    fn refetch_data(&self) -> (effects: Vec<Effect>)
        ensures
            effects_view(effects@) == self@.refetch_data(),
    {
        if self.symbols.is_empty() {
            no_effect()
        } else {
            one_effect(Effect::FetchSnapshot(self.symbols.codes(), SnapshotUse::List))
        }
    }

    /// The fetches of the bars of all tracked stocks, behind `effects`.
    fn refresh_kline(&self, effects: &mut Vec<Effect>)
        ensures
            effects_view(final(effects)@) == effects_view(old(effects)@) + self@.refresh_kline(),
    {
        let codes = self.symbols.codes();
        let ghost before = effects_view(effects@);
        let ghost all = self@.refresh_kline();
        let mut i: usize = 0;
        proof {
            assert(before + all.take(0) =~= before);
        }
        while i < codes.len()
            invariant
                i <= codes.len(),
                texts(codes@) == self@.symbols.codes,
                all == self@.refresh_kline(),
                effects_view(effects@) == before + all.take(i as int),
            decreases codes.len() - i,
        {
            let ghost done = effects_view(effects@);
            let effect = self.kline_fetch(codes[i].clone());
            effects.push(effect);
            proof {
                assert(texts(codes@)[i as int] == codes@[i as int]@);
                assert(effects_view(effects@) =~= done.push(effect@));
                assert(before + all.take(i + 1) =~= (before + all.take(i as int)).push(
                    all[i as int],
                ));
            }
            i += 1;
        }
        proof {
            assert(all.take(i as int) =~= all);
        }
    }

    /// The turn that the command to track `code` takes.
    fn add_stock(&self, code: String) -> (effects: Vec<Effect>)
        ensures
            (self@, effects_view(effects@)) == self@.on_message(ToBackendView::StockAdd(code@)),
    {
        if check_stock_code(code.as_str()) && !self.symbols.contains(code.as_str()) {
            let mut codes: Vec<String> = Vec::new();
            codes.push(code.clone());
            proof {
                assert(texts(codes@) =~= seq![code@]);
            }
            one_effect(Effect::FetchSnapshot(codes, SnapshotUse::Add(code)))
        } else {
            no_effect()
        }
    }

    /// The turn that a command takes.
    fn on_message(&mut self, m: ToBackend) -> (effects: Vec<Effect>)
        ensures
            old(self).wf() ==> final(self).wf(),
            (final(self)@, effects_view(effects@)) == old(self)@.on_message(m@),
    {
        match m {
            ToBackend::Refresh => self.refetch_data(),
            ToBackend::SetInterval(ms) => {
                if ms == 0 {
                    no_effect()
                } else {
                    self.interval = ms;
                    one_effect(Effect::SetTicker(ms))
                }
            },
            ToBackend::StockAdd(code) => self.add_stock(code),
            ToBackend::StockDel(code) => {
                self.symbols.remove(code.as_str());
                self.refetch_data()
            },
            ToBackend::StockKLine(code, scale) => {
                self.symbols.set_scale(code.as_str(), scale);
                let effect = self.kline_fetch(code);
                one_effect(effect)
            },
        }
    }

    /// The turn that the end of a snapshot fetch takes.
    fn on_snapshot(&mut self, purpose: SnapshotUse, text: Option<String>) -> (effects: Vec<Effect>)
        ensures
            old(self).wf() ==> final(self).wf(),
            (final(self)@, effects_view(effects@)) == old(self)@.on_snapshot(
                purpose@,
                match text {
                    Some(t) => Some(t@),
                    None => None,
                },
            ),
    {
        let text = match text {
            Some(t) => t,
            None => {
                return no_effect();
            },
        };
        let mut quotes = decode_snapshot(text.as_str());
        let code = match purpose {
            SnapshotUse::List => {
                return one_effect(Effect::Publish(ToFrontend::DataList(quotes)));
            },
            SnapshotUse::Add(code) => code,
        };
        let ghost decoded = quotes.deep_view();
        let mut i: usize = 0;
        while i < quotes.len() && !same_text(quotes[i].0.as_str(), code.as_str())
            invariant
                i <= quotes.len(),
                decoded == quotes.deep_view(),
                forall|j: int| 0 <= j < i ==> (#[trigger] decoded[j]).0 != code@,
            decreases quotes.len() - i,
        {
            proof {
                assert(decoded[i as int].0 == quotes@[i as int].0@);
            }
            i += 1;
        }
        proof {
            if i < quotes.len() {
                assert(decoded[i as int].0 == quotes@[i as int].0@);
            }
            lemma_first_quote(decoded, code@, i as int);
        }
        if i == quotes.len() {
            return no_effect();
        }
        if !self.symbols.insert(code.as_str()) {
            return no_effect();
        }
        let q = quotes.remove(i);
        proof {
            assert(decoded[i as int] == q.deep_view());
        }
        let mut effects: Vec<Effect> = Vec::new();
        let publish = Effect::Publish(ToFrontend::Data(q.0, q.1, q.2));
        let fetch = self.kline_fetch(code);
        effects.push(publish);
        effects.push(fetch);
        proof {
            assert(effects_view(effects@) =~= seq![publish@, fetch@]);
        }
        effects
    }

    /// The report that the end of a candlestick fetch for `code` is worth.
    /// It depends on no state: a fetch that runs beside the engine is
    /// judged here as one that the engine waits for.
    pub fn report_klines(code: String, records: Option<Vec<KlineItemD>>) -> (r: Option<ToFrontend>)
        ensures
            report_view(r) == kline_report(
                code@,
                match records {
                    Some(r) => Some(r.deep_view()),
                    None => None,
                },
            ),
    {
        match records {
            Some(r) => match decode_klines(&r) {
                Ok(bars) => Some(ToFrontend::Kline(code, bars)),
                Err(_) => None,
            },
            None => None,
        }
    }

    /// The turn that the end of a candlestick fetch takes.
    fn on_kline(&self, code: String, records: Option<Vec<KlineItemD>>) -> (effects: Vec<Effect>)
        ensures
            (self@, effects_view(effects@)) == self@.on_kline(
                code@,
                match records {
                    Some(r) => Some(r.deep_view()),
                    None => None,
                },
            ),
    {
        match Back::report_klines(code, records) {
            Some(report) => one_effect(Effect::Publish(report)),
            None => no_effect(),
        }
    }

    /// Takes the turn of `event`: changes the state, and returns the effects
    /// in the order in which they are to be carried out.
    pub fn step(&mut self, event: Event) -> (effects: Vec<Effect>)
        ensures
            old(self).wf() ==> final(self).wf(),
            (final(self)@, effects_view(effects@)) == old(self)@.step(event@),
    {
        match event {
            Event::Start => {
                let mut effects = self.refetch_data();
                self.refresh_kline(&mut effects);
                effects
            },
            Event::Message(m) => self.on_message(m),
            Event::QuoteTick => self.refetch_data(),
            Event::KlineTick => {
                let mut effects = no_effect();
                self.refresh_kline(&mut effects);
                proof {
                    assert(Seq::<EffectView>::empty() + self@.refresh_kline()
                        =~= self@.refresh_kline());
                }
                effects
            },
            Event::Snapshot(purpose, text) => self.on_snapshot(purpose, text),
            Event::Kline(code, records) => self.on_kline(code, records),
        }
    }
}

/// Every turn keeps the state's invariant: the tracked codes stay stock
/// codes, none is there twice, and the period is not zero.
pub proof fn lemma_step_keeps_invariant(s: BackView, event: EventView)
    requires
        s.wf(),
    ensures
        s.step(event).0.wf(),
{
    match event {
        EventView::Message(ToBackendView::StockDel(code)) => {
            lemma_without_valid(s.symbols.codes, code);
        },
        EventView::Snapshot(SnapshotUseView::Add(code), Some(t)) => {
            lemma_admitted_valid(s.symbols.codes, code);
        },
        _ => {},
    }
}

/// A snapshot is never asked for nothing: every snapshot fetch of a turn
/// names one code at least, stock codes only, and none twice.
pub proof fn lemma_snapshot_fetches_name_stocks(s: BackView, event: EventView, i: int)
    requires
        s.wf(),
        0 <= i < s.step(event).1.len(),
    ensures
        s.step(event).1[i] matches EffectView::FetchSnapshot(codes, _) ==> codes.len() > 0
            && valid_codes(codes),
{
    match event {
        EventView::Message(ToBackendView::StockDel(code)) => {
            lemma_without_valid(s.symbols.codes, code);
        },
        EventView::Message(ToBackendView::StockAdd(code)) => {
            if s.admits(code) {
                lemma_admitted_valid(Seq::empty(), code);
                assert(Seq::<Seq<char>>::empty().push(code) =~= seq![code]);
            }
        },
        _ => {},
    }
}

/// The command to track a stock that is tracked changes nothing and asks for
/// nothing: the set is as large as before, and no fetch follows.
pub proof fn lemma_add_tracked_is_no_op(s: BackView, code: Seq<char>)
    requires
        s.symbols.codes.contains(code),
    ensures
        s.step(EventView::Message(ToBackendView::StockAdd(code))) == (s, Seq::<EffectView>::empty()),
{
}

/// A snapshot that comes for the admission of a stock that is tracked by
/// then changes nothing and asks for nothing.
pub proof fn lemma_late_admission_is_no_op(s: BackView, code: Seq<char>, text: Option<Seq<char>>)
    requires
        s.symbols.codes.contains(code),
    ensures
        s.step(EventView::Snapshot(SnapshotUseView::Add(code), text)) == (
            s,
            Seq::<EffectView>::empty(),
        ),
{
}

/// While no stock is tracked, a tick of the quote timer and the command to
/// refresh ask for nothing.
pub proof fn lemma_empty_set_fetches_nothing(s: BackView)
    requires
        s.symbols.codes.len() == 0,
    ensures
        s.step(EventView::QuoteTick) == (s, Seq::<EffectView>::empty()),
        s.step(EventView::Message(ToBackendView::Refresh)) == (s, Seq::<EffectView>::empty()),
        s.step(EventView::KlineTick).1.len() == 0,
{
}

/// The command to drop the only tracked stock leaves the set empty and asks
/// for nothing, and the next tick of the quote timer asks for nothing
/// either.
pub proof fn lemma_del_last_fetches_nothing(s: BackView, code: Seq<char>)
    requires
        s.symbols.codes == seq![code],
    ensures
        ({
            let (next, effects) = s.step(EventView::Message(ToBackendView::StockDel(code)));
            &&& next.symbols.codes.len() == 0
            &&& effects == Seq::<EffectView>::empty()
            &&& next.step(EventView::QuoteTick) == (next, Seq::<EffectView>::empty())
        }),
{
    let codes = s.symbols.codes;
    assert(codes.drop_last() =~= Seq::<Seq<char>>::empty());
    assert(without(codes.drop_last(), code) =~= Seq::<Seq<char>>::empty());
    assert(without(codes, code) =~= Seq::<Seq<char>>::empty());
}

/// The command to drop a stock while others stay asks for one snapshot of
/// those that stay, and for nothing else.
pub proof fn lemma_del_fetches_rest_once(s: BackView, code: Seq<char>)
    requires
        without(s.symbols.codes, code).len() > 0,
    ensures
        ({
            let (next, effects) = s.step(EventView::Message(ToBackendView::StockDel(code)));
            &&& next.symbols.codes == without(s.symbols.codes, code)
            &&& !next.symbols.codes.contains(code)
            &&& effects == seq![
                EffectView::FetchSnapshot(without(s.symbols.codes, code), SnapshotUseView::List),
            ]
        }),
{
    lemma_without(s.symbols.codes, code);
}

/// A fetch that failed, for a snapshot or for bars, is followed by nothing:
/// no report, no further fetch, no change.
pub proof fn lemma_failed_fetch_is_no_op(s: BackView, purpose: SnapshotUseView, code: Seq<char>)
    ensures
        s.step(EventView::Snapshot(purpose, None)) == (s, Seq::<EffectView>::empty()),
        s.step(EventView::Kline(code, None)) == (s, Seq::<EffectView>::empty()),
{
}

} // verus!
