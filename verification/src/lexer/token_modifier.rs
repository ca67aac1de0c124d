//! Which notation a scanned literal or comment uses.
use vstd::prelude::*;

verus! {

#[derive(PartialEq, Eq, Structural, Debug, Clone, Copy)]
pub enum Number {
    Integer,
    Decimal,
    Hex,
    Exponential,
}

#[derive(PartialEq, Eq, Structural, Debug, Clone, Copy)]
pub enum String {
    LongBrackets,
    Quotes,
    DoubleQuotes,
}

#[derive(PartialEq, Eq, Structural, Debug, Clone, Copy)]
pub enum Comment {
    Oneline,
    Multiline,
}

} // verus!
