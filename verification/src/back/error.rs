//! Why a response of the feed could not be decoded.

use vstd::prelude::*;

verus! {

/// A response that is not what the feed's format promises.
#[derive(Debug, Clone, Copy, PartialEq, Eq, Structural)]
pub enum DecodeError {
    /// A snapshot line is no `var hq_str_<code>="<fields>";` statement.
    Shape,
    /// A snapshot line has fewer fields than the layout names.
    FieldCount,
    /// A numeric field is no number.
    Number,
    /// A bar's `day` is neither a date with a time nor a date.
    Timestamp,
}

} // verus!
