use vstd::prelude::*;

verus! {

/// A decimal literal with a fractional part: its value is `digits / 10^scale`.
#[derive(Clone, Copy, Debug, PartialEq, Eq, Structural)]
pub struct RealLiteral {
    pub digits: i64,
    pub scale: usize,
}

#[derive(Clone, Copy, Debug, PartialEq, Eq, Structural)]
pub enum Token {
    Integer(i64),
    Real(RealLiteral),
    Single(u8),
    Double(u8, u8),
}

/// A half-open byte range `[start, end)` of the source.
#[derive(Clone, Copy, Debug, PartialEq, Eq, Structural)]
pub struct Pos {
    pub start: usize,
    pub end: usize,
}

#[derive(Clone, Copy, Debug, PartialEq, Eq, Structural)]
pub struct TokenAndPos {
    pub token: Token,
    pub pos: Pos,
}

} // verus!
