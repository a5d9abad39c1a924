//! Price bars for tradable instruments and the per-slice collection that
//! holds one bar per instrument.

pub mod data;
pub mod security;
pub mod utils;

use vstd::prelude::*;

pub use security::SecuritySymbol;

verus! {

/// What a price-like number supports: copying, the four operations closed
/// over the type, comparison, and construction from a small integer.
/// Compound assignment is written out as `x = x + y`, which the copy and the
/// closed operation give for every such type.
pub trait NumberType:
    Copy
    + core::fmt::Debug
    + core::ops::Add<Self, Output = Self>
    + core::ops::Sub<Self, Output = Self>
    + core::ops::Mul<Self, Output = Self>
    + core::ops::Div<Self, Output = Self>
    + core::cmp::PartialEq<Self>
    + core::cmp::PartialOrd<Self>
    + From<i8>
{
}

/// The numbers that bars hold; kept apart from portfolio numbers by name.
pub trait DataNumberType: NumberType {
}

/// The numbers that cash and quantities hold; kept apart from bar numbers by name.
pub trait PortfolioNumberType: NumberType {
}

} // verus!
