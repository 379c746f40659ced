use vstd::prelude::*;

use crate::text::{is_valid_symbol, normalize_symbol, normalized_symbol, opt_view, valid_symbol};

verus! {

/// The symbol to take from a submitted field: its normalized text when that
/// is a well-formed symbol, otherwise nothing.
pub open spec fn accepted(raw: Option<Seq<char>>) -> Option<Seq<char>> {
    if is_valid_symbol(normalized_symbol(raw)) {
        Some(normalized_symbol(raw))
    } else {
        None
    }
}

fn accept(raw: &Option<String>) -> (r: Option<String>)
    ensures
        opt_view(r) == accepted(opt_view(*raw)),
{
    let symbol = normalize_symbol(raw);
    if valid_symbol(symbol.as_str()) {
        Some(symbol)
    } else {
        None
    }
}

/// The form that adds a symbol to the watch list.
pub struct SymbolForm {
    pub symbol: Option<String>,
}

impl SymbolForm {
    /// The symbol to add: the field trimmed and upper-cased, if it is then a
    /// well-formed symbol; otherwise the form is ignored.
    pub fn accepted_symbol(&self) -> (r: Option<String>)
        ensures
            opt_view(r) == accepted(opt_view(self.symbol)),
    {
        accept(&self.symbol)
    }
}

/// The form that records a purchase in the portfolio. The share count and
/// the price paid are decimal numbers, read by the caller.
pub struct PortfolioForm {
    pub symbol: Option<String>,
    pub shares: Option<String>,
    pub price_paid: Option<String>,
}

impl PortfolioForm {
    /// The symbol of the purchase: the field trimmed and upper-cased, if it
    /// is then a well-formed symbol; otherwise the form is ignored.
    pub fn accepted_symbol(&self) -> (r: Option<String>)
        ensures
            opt_view(r) == accepted(opt_view(self.symbol)),
    {
        accept(&self.symbol)
    }
}

} // verus!
