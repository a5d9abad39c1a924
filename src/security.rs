//! Identifiers of tradable instruments.

use vstd::prelude::*;

verus! {

/// An instrument, by class and name.
#[derive(Debug, Eq, Hash)]
pub enum SecuritySymbol {
    Equity(String),
}

/// The mathematical value of a symbol: its class and the characters of its name.
pub enum SymbolView {
    Equity(Seq<char>),
}

impl View for SecuritySymbol {
    type V = SymbolView;

    open spec fn view(&self) -> SymbolView {
        match self {
            SecuritySymbol::Equity(name) => SymbolView::Equity(name@),
        }
    }
}

impl PartialEq for SecuritySymbol {
    fn eq(&self, other: &SecuritySymbol) -> (r: bool)
        ensures
            r == (self@ == other@),
    {
        match (self, other) {
            (SecuritySymbol::Equity(a), SecuritySymbol::Equity(b)) => a.eq(b),
        }
    }
}

impl vstd::std_specs::cmp::PartialEqSpecImpl for SecuritySymbol {
    open spec fn obeys_eq_spec() -> bool {
        true
    }

    open spec fn eq_spec(&self, other: &SecuritySymbol) -> bool {
        self@ == other@
    }
}

impl Clone for SecuritySymbol {
    fn clone(&self) -> (r: SecuritySymbol)
        ensures
            r@ == self@,
    {
        match self {
            SecuritySymbol::Equity(name) => SecuritySymbol::Equity(name.clone()),
        }
    }
}

} // verus!
