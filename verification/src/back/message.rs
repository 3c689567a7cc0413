//! What the presentation tells the engine, and what the engine reports.

use crate::back::kline::KlineItem;
use crate::back::quote::QuoteView;
use crate::back::stock::{BaseData, BaseDataView, KLineScale};
use vstd::prelude::*;

verus! {

/// A command of the presentation.
#[derive(Debug, Clone, PartialEq, Eq)]
pub enum ToBackend {
    /// Fetch the snapshot of all tracked stocks now.
    Refresh,
    /// Refresh the quotes every so many milliseconds from now on.
    SetInterval(u32),
    /// Track the stock of this code.
    StockAdd(String),
    /// Track the stock of this code no longer.
    StockDel(String),
    /// Show the stock of this code at this resolution.
    StockKLine(String, KLineScale),
}

/// What a [`ToBackend`] holds.
pub enum ToBackendView {
    Refresh,
    SetInterval(u32),
    StockAdd(Seq<char>),
    StockDel(Seq<char>),
    StockKLine(Seq<char>, KLineScale),
}

impl View for ToBackend {
    type V = ToBackendView;

    open spec fn view(&self) -> ToBackendView {
        match self {
            ToBackend::Refresh => ToBackendView::Refresh,
            ToBackend::SetInterval(ms) => ToBackendView::SetInterval(*ms),
            ToBackend::StockAdd(code) => ToBackendView::StockAdd(code@),
            ToBackend::StockDel(code) => ToBackendView::StockDel(code@),
            ToBackend::StockKLine(code, scale) => ToBackendView::StockKLine(code@, *scale),
        }
    }
}

/// A report of the engine.
#[derive(Debug, Clone, PartialEq, Eq)]
pub enum ToFrontend {
    /// The quotes of one snapshot, each with its stock's code and name.
    DataList(Vec<(String, String, BaseData)>),
    /// The code, the name and the quote of one stock.
    Data(String, String, BaseData),
    /// The code of one stock and its bars, oldest first.
    Kline(String, Vec<KlineItem>),
}

/// What a [`ToFrontend`] holds.
pub enum ToFrontendView {
    DataList(Seq<QuoteView>),
    Data(Seq<char>, Seq<char>, BaseDataView),
    Kline(Seq<char>, Seq<KlineItem>),
}

impl View for ToFrontend {
    type V = ToFrontendView;

    open spec fn view(&self) -> ToFrontendView {
        match self {
            ToFrontend::DataList(quotes) => ToFrontendView::DataList(quotes.deep_view()),
            ToFrontend::Data(code, name, data) => ToFrontendView::Data(code@, name@, data@),
            ToFrontend::Kline(code, bars) => ToFrontendView::Kline(code@, bars@),
        }
    }
}

} // verus!
