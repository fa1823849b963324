use vstd::prelude::*;

use crate::token::RealLiteral;

verus! {

/// A runtime value. A real is held as the bit pattern of an IEEE-754 binary64 number.
#[derive(Clone, Copy, Debug, PartialEq, Eq, Structural)]
pub enum Value {
    Void,
    Boolean(bool),
    Integer(i64),
    Real(u64),
}

/// The binary operators of the machine.
#[derive(Clone, Copy, Debug, PartialEq, Eq, Structural)]
pub enum Operator {
    Add,
    Multiply,
    Subtract,
    Divide,
    Remainder,
    Less,
    Greater,
    LessEquals,
    GreaterEquals,
    Equals,
    NotEquals,
}

impl Operator {
    pub open spec fn is_comparison(self) -> bool {
        match self {
            Operator::Less | Operator::Greater | Operator::LessEquals | Operator::GreaterEquals
            | Operator::Equals | Operator::NotEquals => true,
            _ => false,
        }
    }

    /// The operator as it is written in source text.
    pub open spec fn symbol_text(self) -> Seq<char> {
        match self {
            Operator::Add => seq!['+'],
            Operator::Multiply => seq!['*'],
            Operator::Subtract => seq!['-'],
            Operator::Divide => seq!['/'],
            Operator::Remainder => seq!['%'],
            Operator::Less => seq!['<'],
            Operator::Greater => seq!['>'],
            Operator::LessEquals => seq!['<', '='],
            Operator::GreaterEquals => seq!['>', '='],
            Operator::Equals => seq!['=', '='],
            Operator::NotEquals => seq!['!', '='],
        }
    }

    /// The operator as it is written in source text.
    pub fn symbol(&self) -> (r: &'static str)
        ensures
            r@ == self.symbol_text(),
    {
        match self {
            Operator::Add => {
                let r = "+";
                proof {
                    reveal_strlit("+");
                }
                r
            },
            Operator::Multiply => {
                let r = "*";
                proof {
                    reveal_strlit("*");
                }
                r
            },
            Operator::Subtract => {
                let r = "-";
                proof {
                    reveal_strlit("-");
                }
                r
            },
            Operator::Divide => {
                let r = "/";
                proof {
                    reveal_strlit("/");
                }
                r
            },
            Operator::Remainder => {
                let r = "%";
                proof {
                    reveal_strlit("%");
                }
                r
            },
            Operator::Less => {
                let r = "<";
                proof {
                    reveal_strlit("<");
                }
                r
            },
            Operator::Greater => {
                let r = ">";
                proof {
                    reveal_strlit(">");
                }
                r
            },
            Operator::LessEquals => {
                let r = "<=";
                proof {
                    reveal_strlit("<=");
                }
                r
            },
            Operator::GreaterEquals => {
                let r = ">=";
                proof {
                    reveal_strlit(">=");
                }
                r
            },
            Operator::Equals => {
                let r = "==";
                proof {
                    reveal_strlit("==");
                }
                r
            },
            Operator::NotEquals => {
                let r = "!=";
                proof {
                    reveal_strlit("!=");
                }
                r
            },
        }
    }
}

/// Floating-point arithmetic on binary64 bit patterns, supplied by the host.
///
/// The library never inspects the bits it gets back: a real result is whatever the
/// unit computes, and every contract of the library holds for any unit.
pub trait RealUnit {
    /// The binary64 value nearest to `literal.digits / 10^literal.scale`.
    fn decimal(&self, literal: RealLiteral) -> u64;

    /// The binary64 value of an integer.
    fn promote(&self, value: i64) -> u64;

    /// `left op right` for an arithmetic operator.
    fn arithmetic(&self, op: Operator, left: u64, right: u64) -> u64;

    /// `left op right` for a comparison operator.
    fn compare(&self, op: Operator, left: u64, right: u64) -> bool;
}

} // verus!
