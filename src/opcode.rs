use vstd::prelude::*;

use crate::value::Operator;

verus! {

/// Ends the program; the value on top of the stack is its result.
pub const END: u8 = 0x00;

/// Pushes the integer in the 8 big-endian bytes that follow.
pub const LDI: u8 = 0x01;

pub const ADD: u8 = 0x02;

pub const MUL: u8 = 0x03;

pub const SUB: u8 = 0x04;

pub const DIV: u8 = 0x05;

/// Pushes the binary64 real whose bits are the 8 big-endian bytes that follow.
pub const LDR: u8 = 0x06;

pub const MOD: u8 = 0x07;

pub const EQ: u8 = 0x08;

pub const NE: u8 = 0x09;

pub const LS: u8 = 0x0A;

pub const GR: u8 = 0x0B;

pub const LE: u8 = 0x0C;

pub const GE: u8 = 0x0D;

/// The operator that an opcode stands for, if any.
pub open spec fn operator_of(opcode: u8) -> Option<Operator> {
    if opcode == ADD {
        Some(Operator::Add)
    } else if opcode == MUL {
        Some(Operator::Multiply)
    } else if opcode == SUB {
        Some(Operator::Subtract)
    } else if opcode == DIV {
        Some(Operator::Divide)
    } else if opcode == MOD {
        Some(Operator::Remainder)
    } else if opcode == LS {
        Some(Operator::Less)
    } else if opcode == GR {
        Some(Operator::Greater)
    } else if opcode == LE {
        Some(Operator::LessEquals)
    } else if opcode == GE {
        Some(Operator::GreaterEquals)
    } else if opcode == EQ {
        Some(Operator::Equals)
    } else if opcode == NE {
        Some(Operator::NotEquals)
    } else {
        None
    }
}

/// Decodes an operator opcode.
pub fn operator_for(opcode: u8) -> (r: Option<Operator>)
    ensures
        r == operator_of(opcode),
{
    if opcode == ADD {
        Some(Operator::Add)
    } else if opcode == MUL {
        Some(Operator::Multiply)
    } else if opcode == SUB {
        Some(Operator::Subtract)
    } else if opcode == DIV {
        Some(Operator::Divide)
    } else if opcode == MOD {
        Some(Operator::Remainder)
    } else if opcode == LS {
        Some(Operator::Less)
    } else if opcode == GR {
        Some(Operator::Greater)
    } else if opcode == LE {
        Some(Operator::LessEquals)
    } else if opcode == GE {
        Some(Operator::GreaterEquals)
    } else if opcode == EQ {
        Some(Operator::Equals)
    } else if opcode == NE {
        Some(Operator::NotEquals)
    } else {
        None
    }
}

} // verus!
