//! Data-synchronisation core of a stock quote tracker: the symbol set and the
//! scheduler's decisions, the decoders for the quote feed's snapshot lines and
//! candlestick history, and the request addresses of both endpoints.

pub mod back;
pub mod number;
pub mod text;
