use vstd::prelude::*;
use vstd::wrapping::i64_specs;

use crate::value::{Operator, RealUnit, Value};

verus! {

#[derive(Clone, Copy, Debug, PartialEq, Eq, Structural)]
pub enum VMError {
    StackOverflow,
    StackUnderflow,
    UnknownInstruction,
    OpcodeFetch,
    BinaryOperator,
    DividingByZero,
}

/// The fixed description of each error kind.
pub open spec fn description_text(e: VMError) -> Seq<char> {
    match e {
        VMError::StackOverflow => "Stack overflow."@,
        VMError::StackUnderflow => "Stack underflow."@,
        VMError::UnknownInstruction => "Unknown instruction."@,
        VMError::OpcodeFetch => "Unable to fetch opcode."@,
        VMError::BinaryOperator => "Binary operator error."@,
        VMError::DividingByZero => "Dividing by zero."@,
    }
}

impl VMError {
    /// A fixed description of the error kind.
    pub fn description(&self) -> (r: &'static str)
        ensures
            r@ == description_text(*self),
    {
        match self {
            VMError::StackOverflow => {
                let r = "Stack overflow.";
                proof {
                    reveal_strlit("Stack overflow.");
                }
                r
            },
            VMError::StackUnderflow => {
                let r = "Stack underflow.";
                proof {
                    reveal_strlit("Stack underflow.");
                }
                r
            },
            VMError::UnknownInstruction => {
                let r = "Unknown instruction.";
                proof {
                    reveal_strlit("Unknown instruction.");
                }
                r
            },
            VMError::OpcodeFetch => {
                let r = "Unable to fetch opcode.";
                proof {
                    reveal_strlit("Unable to fetch opcode.");
                }
                r
            },
            VMError::BinaryOperator => {
                let r = "Binary operator error.";
                proof {
                    reveal_strlit("Binary operator error.");
                }
                r
            },
            VMError::DividingByZero => {
                let r = "Dividing by zero.";
                proof {
                    reveal_strlit("Dividing by zero.");
                }
                r
            },
        }
    }
}

pub type VMResult<T> = Result<T, VMError>;

/// A bounded stack of values.
pub trait Stack {
    /// The values on the stack, bottom first.
    spec fn values(&self) -> Seq<Value>;

    /// How many values the stack can hold.
    spec fn capacity(&self) -> nat;

    /// The stack's own invariant.
    spec fn valid(&self) -> bool;

    fn push(&mut self, value: Value) -> (r: VMResult<()>)
        requires
            old(self).valid(),
        ensures
            final(self).valid(),
            final(self).capacity() == old(self).capacity(),
            old(self).values().len() < old(self).capacity() ==> r is Ok && final(self).values()
                == old(self).values().push(value),
            old(self).values().len() >= old(self).capacity() ==> r == Err::<(), VMError>(
                VMError::StackOverflow,
            ) && final(self).values() == old(self).values(),
    ;

    fn pop(&mut self) -> (r: VMResult<Value>)
        requires
            old(self).valid(),
        ensures
            final(self).valid(),
            final(self).capacity() == old(self).capacity(),
            old(self).values().len() > 0 ==> r == Ok::<Value, VMError>(old(self).values().last())
                && final(self).values() == old(self).values().drop_last(),
            old(self).values().len() == 0 ==> r == Err::<Value, VMError>(VMError::StackUnderflow)
                && final(self).values() == old(self).values(),
    ;
}

/// What is known of a value that the machine computes: the value itself, or only
/// that it is a real or a boolean (when the real unit computed it).
#[derive(Clone, Copy, Debug, PartialEq, Eq, Structural)]
pub enum Approx {
    Exact(Value),
    AnyReal,
    AnyBoolean,
}

/// Whether the value `v` is one that `a` describes.
pub open spec fn admits(a: Approx, v: Value) -> bool {
    match a {
        Approx::Exact(x) => v == x,
        Approx::AnyReal => v is Real,
        Approx::AnyBoolean => v is Boolean,
    }
}

/// Whether each value of `vs` is one that the matching entry of `a` describes.
pub open spec fn admits_all(a: Seq<Approx>, vs: Seq<Value>) -> bool {
    a.len() == vs.len() && forall|i: int| 0 <= i < a.len() ==> admits(#[trigger] a[i], vs[i])
}

pub open spec fn exacts(vs: Seq<Value>) -> Seq<Approx> {
    vs.map_values(|v: Value| Approx::Exact(v))
}

pub open spec fn is_number(a: Approx) -> bool {
    match a {
        Approx::Exact(Value::Integer(_)) | Approx::Exact(Value::Real(_)) | Approx::AnyReal => true,
        _ => false,
    }
}

/// Division truncating toward zero.
pub open spec fn trunc_div(l: int, r: int) -> int {
    let q: int = vstd::math::abs(l) as int / vstd::math::abs(r) as int;
    if (l < 0) != (r < 0) {
        -q
    } else {
        q
    }
}

pub open spec fn wrapping_div(l: i64, r: i64) -> i64 {
    if l == i64::MIN && r == -1 {
        i64::MIN
    } else {
        trunc_div(l as int, r as int) as i64
    }
}

/// The remainder that goes with `trunc_div`: it has the sign of `l`.
pub open spec fn wrapping_rem(l: i64, r: i64) -> i64 {
    if l == i64::MIN && r == -1 {
        0
    } else {
        (l - r * trunc_div(l as int, r as int)) as i64
    }
}

/// An operator on two integers.
pub open spec fn int_binary(op: Operator, l: i64, r: i64) -> VMResult<Value> {
    match op {
        Operator::Add => Ok(Value::Integer(i64_specs::wrapping_add(l, r))),
        Operator::Multiply => Ok(Value::Integer(i64_specs::wrapping_mul(l, r))),
        Operator::Subtract => Ok(Value::Integer(i64_specs::wrapping_sub(l, r))),
        Operator::Divide => if r == 0 {
            Err(VMError::DividingByZero)
        } else {
            Ok(Value::Integer(wrapping_div(l, r)))
        },
        Operator::Remainder => if r == 0 {
            Err(VMError::DividingByZero)
        } else {
            Ok(Value::Integer(wrapping_rem(l, r)))
        },
        Operator::Less => Ok(Value::Boolean(l < r)),
        Operator::Greater => Ok(Value::Boolean(l > r)),
        Operator::LessEquals => Ok(Value::Boolean(l <= r)),
        Operator::GreaterEquals => Ok(Value::Boolean(l >= r)),
        Operator::Equals => Ok(Value::Boolean(l == r)),
        Operator::NotEquals => Ok(Value::Boolean(l != r)),
    }
}

/// What an operator gives on two operands: exact on integers, a real (or, for a
/// comparison, a boolean) when a real takes part, and an error on void or booleans.
pub open spec fn binary_spec(op: Operator, l: Approx, r: Approx) -> VMResult<Approx> {
    match (l, r) {
        (Approx::Exact(Value::Integer(x)), Approx::Exact(Value::Integer(y))) => match int_binary(
            op,
            x,
            y,
        ) {
            Ok(v) => Ok(Approx::Exact(v)),
            Err(e) => Err(e),
        },
        _ => if is_number(l) && is_number(r) {
            if op.is_comparison() {
                Ok(Approx::AnyBoolean)
            } else {
                Ok(Approx::AnyReal)
            }
        } else {
            Err(VMError::BinaryOperator)
        },
    }
}

/// Pops the right operand, then the left one, and pushes what the operator gives.
pub open spec fn apply_spec(op: Operator, a: Seq<Approx>) -> VMResult<Seq<Approx>> {
    if a.len() < 2 {
        Err(VMError::StackUnderflow)
    } else {
        match binary_spec(op, a[a.len() - 2], a[a.len() - 1]) {
            Ok(x) => Ok(a.drop_last().drop_last().push(x)),
            Err(e) => Err(e),
        }
    }
}

/// `l / r` truncated toward zero, wrapping at the single overflowing case.
fn int_divide(l: i64, r: i64) -> (q: i64)
    requires
        r != 0,
    ensures
        q == wrapping_div(l, r),
{
    if l == i64::MIN && r == -1 {
        return i64::MIN;
    }
    let al: u64 = if l < 0 {
        (0i128 - l as i128) as u64
    } else {
        l as u64
    };
    let ar: u64 = if r < 0 {
        (0i128 - r as i128) as u64
    } else {
        r as u64
    };
    assert(al == vstd::math::abs(l as int) && ar == vstd::math::abs(r as int));
    let q: u64 = al / ar;
    proof {
        assert(q <= al) by (nonlinear_arith)
            requires
                q == al / ar,
                ar >= 1,
        ;
        if ar >= 2 {
            assert(q * 2 <= al) by (nonlinear_arith)
                requires
                    q == al / ar,
                    ar >= 2,
            ;
        }
    }
    if (l < 0) != (r < 0) {
        (0i128 - q as i128) as i64
    } else {
        q as i64
    }
}

/// The remainder of `int_divide`, with the sign of `l`.
fn int_remainder(l: i64, r: i64) -> (m: i64)
    requires
        r != 0,
    ensures
        m == wrapping_rem(l, r),
{
    if l == i64::MIN && r == -1 {
        return 0;
    }
    let al: u64 = if l < 0 {
        (0i128 - l as i128) as u64
    } else {
        l as u64
    };
    let ar: u64 = if r < 0 {
        (0i128 - r as i128) as u64
    } else {
        r as u64
    };
    let q: u64 = al / ar;
    let m: u64 = al % ar;
    proof {
        assert(al == ar * q + m && m < ar) by (nonlinear_arith)
            requires
                q == al / ar,
                m == al % ar,
                ar >= 1,
        ;
        let t = trunc_div(l as int, r as int);
        assert(t == if (l < 0) != (r < 0) { -(q as int) } else { q as int });
        if l < 0 && r < 0 {
            assert(l - r * t == -(m as int)) by (nonlinear_arith)
                requires al == -l, ar == -r, t == q, al == ar * q + m;
        } else if l < 0 {
            assert(l - r * t == -(m as int)) by (nonlinear_arith)
                requires al == -l, ar == r, t == -q, al == ar * q + m;
        } else if r < 0 {
            assert(l - r * t == m) by (nonlinear_arith)
                requires al == l, ar == -r, t == -q, al == ar * q + m;
        } else {
            assert(l - r * t == m) by (nonlinear_arith)
                requires al == l, ar == r, t == q, al == ar * q + m;
        }
    }
    if l < 0 {
        (0i128 - m as i128) as i64
    } else {
        m as i64
    }
}

/// The operator and operands of a failed operation.
#[derive(Clone, Copy, Debug, PartialEq, Eq, Structural)]
pub struct Fault {
    pub operator: Operator,
    pub left: Value,
    pub right: Value,
}

/// The machine's state: its value stack, program counter and the details of the
/// last failed operation.
pub struct State<S, U> {
    pub stack: S,
    pub unit: U,
    pub program_counter: usize,
    pub message: Option<Fault>,
}

/// Whether `r` is the outcome of `op` on `l` and `r`, and `after` is `before` with the
/// failure recorded where there is one.
pub open spec fn op_done<S: Stack, U: RealUnit>(
    op: Operator,
    l: Value,
    r: Value,
    res: VMResult<Value>,
    before: State<S, U>,
    after: State<S, U>,
) -> bool {
    &&& after.values() == before.values()
    &&& after.capacity() == before.capacity()
    &&& after.valid() == before.valid()
    &&& after.program_counter == before.program_counter
    &&& match binary_spec(op, Approx::Exact(l), Approx::Exact(r)) {
        Ok(a) => res is Ok && admits(a, res->Ok_0) && after.message == before.message,
        Err(e) => res == Err::<Value, VMError>(e) && after.message == Some(
            Fault { operator: op, left: l, right: r },
        ),
    }
}

/// Whether `after` is `before` with `op` applied to its stack, or else what
/// `failure_done` describes.
pub open spec fn binary_done<S: Stack, U: RealUnit>(
    op: Operator,
    res: VMResult<()>,
    before: State<S, U>,
    after: State<S, U>,
) -> bool {
    &&& after.valid()
    &&& after.capacity() == before.capacity()
    &&& match apply_spec(op, exacts(before.values())) {
        Ok(a) => res is Ok && admits_all(a, after.values()) && after.message == before.message,
        Err(e) => res == Err::<(), VMError>(e) && failure_done(op, before, after),
    }
}

/// What a failed operation leaves: both operands popped, with nothing pushed back and
/// the fault recorded; or, where there were fewer than two values, an empty stack and
/// the message as it was.
pub open spec fn failure_done<S: Stack, U: RealUnit>(
    op: Operator,
    before: State<S, U>,
    after: State<S, U>,
) -> bool {
    let vs = before.values();
    if vs.len() >= 2 {
        &&& after.values() == vs.drop_last().drop_last()
        &&& after.message == Some(
            Fault { operator: op, left: vs[vs.len() - 2], right: vs[vs.len() - 1] },
        )
    } else {
        &&& after.values() == Seq::<Value>::empty()
        &&& after.message == before.message
    }
}

pub open spec fn without_flag(r: VMResult<bool>) -> VMResult<()> {
    match r {
        Ok(_) => Ok(()),
        Err(e) => Err(e),
    }
}

impl<S: Stack, U: RealUnit> State<S, U> {
    pub open spec fn values(&self) -> Seq<Value> {
        self.stack.values()
    }

    pub open spec fn capacity(&self) -> nat {
        self.stack.capacity()
    }

    pub open spec fn valid(&self) -> bool {
        self.stack.valid() && self.stack.values().len() <= self.stack.capacity()
    }

    pub fn new(stack: S, unit: U) -> (r: Self)
        requires
            stack.valid(),
            stack.values().len() <= stack.capacity(),
        ensures
            r.valid(),
            r.values() == stack.values(),
            r.capacity() == stack.capacity(),
            r.program_counter == 0,
            r.message is None,
    {
        Self { stack, unit, program_counter: 0, message: None }
    }

    pub fn push(&mut self, value: Value) -> (r: VMResult<()>)
        requires
            old(self).valid(),
        ensures
            final(self).valid(),
            final(self).capacity() == old(self).capacity(),
            final(self).program_counter == old(self).program_counter,
            final(self).message == old(self).message,
            final(self).unit == old(self).unit,
            old(self).values().len() < old(self).capacity() ==> r is Ok && final(self).values()
                == old(self).values().push(value),
            old(self).values().len() >= old(self).capacity() ==> r == Err::<(), VMError>(
                VMError::StackOverflow,
            ) && final(self).values() == old(self).values(),
    {
        self.stack.push(value)
    }

    pub fn pop(&mut self) -> (r: VMResult<Value>)
        requires
            old(self).valid(),
        ensures
            final(self).valid(),
            final(self).capacity() == old(self).capacity(),
            final(self).program_counter == old(self).program_counter,
            final(self).message == old(self).message,
            final(self).unit == old(self).unit,
            old(self).values().len() > 0 ==> r == Ok::<Value, VMError>(old(self).values().last())
                && final(self).values() == old(self).values().drop_last(),
            old(self).values().len() == 0 ==> r == Err::<Value, VMError>(VMError::StackUnderflow)
                && final(self).values() == old(self).values(),
    {
        self.stack.pop()
    }

    fn error<T>(&mut self, e: VMError, operator: Operator, left: Value, right: Value) -> (r:
        VMResult<T>)
        ensures
            r == Err::<T, VMError>(e),
            final(self).stack == old(self).stack,
            final(self).program_counter == old(self).program_counter,
            final(self).message == Some(Fault { operator, left, right }),
    {
        self.message = Some(Fault { operator, left, right });
        Err(e)
    }

    fn op_error(&mut self, operator: Operator, l: Value, r: Value) -> (res: VMResult<Value>)
        ensures
            res == Err::<Value, VMError>(VMError::BinaryOperator),
            final(self).stack == old(self).stack,
            final(self).program_counter == old(self).program_counter,
            final(self).message == Some(Fault { operator, left: l, right: r }),
    {
        self.error(VMError::BinaryOperator, operator, l, r)
    }

    /// Both operands as binary64 bit patterns, where both are numbers and one is a real.
    fn real_operands(&self, l: Value, r: Value) -> (res: Option<(u64, u64)>)
        requires
            !(l is Integer && r is Integer),
        ensures
            res is Some <==> is_number(Approx::Exact(l)) && is_number(Approx::Exact(r)),
    {
        match (l, r) {
            (Value::Integer(x), Value::Real(y)) => Some((self.unit.promote(x), y)),
            (Value::Real(x), Value::Integer(y)) => Some((x, self.unit.promote(y))),
            (Value::Real(x), Value::Real(y)) => Some((x, y)),
            _ => None,
        }
    }

    fn real_arithmetic(&mut self, op: Operator, l: Value, r: Value) -> (res: VMResult<Value>)
        requires
            !(l is Integer && r is Integer),
            !op.is_comparison(),
        ensures
            op_done(op, l, r, res, *old(self), *final(self)),
    {
        match self.real_operands(l, r) {
            Some((x, y)) => Ok(Value::Real(self.unit.arithmetic(op, x, y))),
            None => self.op_error(op, l, r),
        }
    }

    fn real_compare(&mut self, op: Operator, l: Value, r: Value) -> (res: VMResult<Value>)
        requires
            !(l is Integer && r is Integer),
            op.is_comparison(),
        ensures
            op_done(op, l, r, res, *old(self), *final(self)),
    {
        match self.real_operands(l, r) {
            Some((x, y)) => Ok(Value::Boolean(self.unit.compare(op, x, y))),
            None => self.op_error(op, l, r),
        }
    }

    fn op_addict(&mut self, l: Value, r: Value) -> (res: VMResult<Value>)
        ensures
            op_done(Operator::Add, l, r, res, *old(self), *final(self)),
    {
        match (l, r) {
            (Value::Integer(x), Value::Integer(y)) => Ok(Value::Integer(x.wrapping_add(y))),
            _ => self.real_arithmetic(Operator::Add, l, r),
        }
    }

    fn op_multiply(&mut self, l: Value, r: Value) -> (res: VMResult<Value>)
        ensures
            op_done(Operator::Multiply, l, r, res, *old(self), *final(self)),
    {
        match (l, r) {
            (Value::Integer(x), Value::Integer(y)) => Ok(Value::Integer(x.wrapping_mul(y))),
            _ => self.real_arithmetic(Operator::Multiply, l, r),
        }
    }

    fn op_subtract(&mut self, l: Value, r: Value) -> (res: VMResult<Value>)
        ensures
            op_done(Operator::Subtract, l, r, res, *old(self), *final(self)),
    {
        match (l, r) {
            (Value::Integer(x), Value::Integer(y)) => Ok(Value::Integer(x.wrapping_sub(y))),
            _ => self.real_arithmetic(Operator::Subtract, l, r),
        }
    }

    fn op_divide(&mut self, l: Value, r: Value) -> (res: VMResult<Value>)
        ensures
            op_done(Operator::Divide, l, r, res, *old(self), *final(self)),
    {
        match (l, r) {
            (Value::Integer(x), Value::Integer(y)) => {
                if y == 0 {
                    self.error(VMError::DividingByZero, Operator::Divide, l, r)
                } else {
                    Ok(Value::Integer(int_divide(x, y)))
                }
            },
            _ => self.real_arithmetic(Operator::Divide, l, r),
        }
    }

    fn op_module(&mut self, l: Value, r: Value) -> (res: VMResult<Value>)
        ensures
            op_done(Operator::Remainder, l, r, res, *old(self), *final(self)),
    {
        match (l, r) {
            (Value::Integer(x), Value::Integer(y)) => {
                if y == 0 {
                    self.error(VMError::DividingByZero, Operator::Remainder, l, r)
                } else {
                    Ok(Value::Integer(int_remainder(x, y)))
                }
            },
            _ => self.real_arithmetic(Operator::Remainder, l, r),
        }
    }

    fn op_less(&mut self, l: Value, r: Value) -> (res: VMResult<Value>)
        ensures
            op_done(Operator::Less, l, r, res, *old(self), *final(self)),
    {
        match (l, r) {
            (Value::Integer(x), Value::Integer(y)) => Ok(Value::Boolean(x < y)),
            _ => self.real_compare(Operator::Less, l, r),
        }
    }

    fn op_greater(&mut self, l: Value, r: Value) -> (res: VMResult<Value>)
        ensures
            op_done(Operator::Greater, l, r, res, *old(self), *final(self)),
    {
        match (l, r) {
            (Value::Integer(x), Value::Integer(y)) => Ok(Value::Boolean(x > y)),
            _ => self.real_compare(Operator::Greater, l, r),
        }
    }

    fn op_less_equals(&mut self, l: Value, r: Value) -> (res: VMResult<Value>)
        ensures
            op_done(Operator::LessEquals, l, r, res, *old(self), *final(self)),
    {
        match (l, r) {
            (Value::Integer(x), Value::Integer(y)) => Ok(Value::Boolean(x <= y)),
            _ => self.real_compare(Operator::LessEquals, l, r),
        }
    }

    fn op_greater_equals(&mut self, l: Value, r: Value) -> (res: VMResult<Value>)
        ensures
            op_done(Operator::GreaterEquals, l, r, res, *old(self), *final(self)),
    {
        match (l, r) {
            (Value::Integer(x), Value::Integer(y)) => Ok(Value::Boolean(x >= y)),
            _ => self.real_compare(Operator::GreaterEquals, l, r),
        }
    }

    fn op_equals(&mut self, l: Value, r: Value) -> (res: VMResult<Value>)
        ensures
            op_done(Operator::Equals, l, r, res, *old(self), *final(self)),
    {
        match (l, r) {
            (Value::Integer(x), Value::Integer(y)) => Ok(Value::Boolean(x == y)),
            _ => self.real_compare(Operator::Equals, l, r),
        }
    }

    fn op_not_equals(&mut self, l: Value, r: Value) -> (res: VMResult<Value>)
        ensures
            op_done(Operator::NotEquals, l, r, res, *old(self), *final(self)),
    {
        match (l, r) {
            (Value::Integer(x), Value::Integer(y)) => Ok(Value::Boolean(x != y)),
            _ => self.real_compare(Operator::NotEquals, l, r),
        }
    }

    fn operate(&mut self, op: Operator, l: Value, r: Value) -> (res: VMResult<Value>)
        ensures
            op_done(op, l, r, res, *old(self), *final(self)),
    {
        match op {
            Operator::Add => self.op_addict(l, r),
            Operator::Multiply => self.op_multiply(l, r),
            Operator::Subtract => self.op_subtract(l, r),
            Operator::Divide => self.op_divide(l, r),
            Operator::Remainder => self.op_module(l, r),
            Operator::Less => self.op_less(l, r),
            Operator::Greater => self.op_greater(l, r),
            Operator::LessEquals => self.op_less_equals(l, r),
            Operator::GreaterEquals => self.op_greater_equals(l, r),
            Operator::Equals => self.op_equals(l, r),
            Operator::NotEquals => self.op_not_equals(l, r),
        }
    }

    /// Pops the right operand, then the left one, and pushes `left op right`.
    fn binary(&mut self, op: Operator) -> (r: VMResult<()>)
        requires
            old(self).valid(),
        ensures
            binary_done(op, r, *old(self), *final(self)),
            final(self).program_counter == old(self).program_counter,
    {
        let ghost vs = self.values();
        let right = match self.pop() {
            Ok(v) => v,
            Err(e) => {
                assert(self.values() =~= Seq::<Value>::empty());
                return Err(e);
            },
        };
        let left = match self.pop() {
            Ok(v) => v,
            Err(e) => {
                assert(self.values() =~= Seq::<Value>::empty());
                return Err(e);
            },
        };
        let result = match self.operate(op, left, right) {
            Ok(v) => v,
            Err(e) => return Err(e),
        };
        let r = self.push(result);
        proof {
            let a = exacts(vs);
            assert(a[a.len() - 2] == Approx::Exact(left));
            assert(a[a.len() - 1] == Approx::Exact(right));
            let x = binary_spec(op, Approx::Exact(left), Approx::Exact(right))->Ok_0;
            let a2 = a.drop_last().drop_last().push(x);
            assert forall|i: int| 0 <= i < a2.len() implies admits(#[trigger] a2[i], self.values()[i]) by {
                if i < a2.len() - 1 {
                    assert(self.values()[i] == vs[i]);
                }
            }
        }
        r
    }

    /// Applies `op` to the two values on top of the stack and moves past its opcode.
    pub fn single(&mut self, op: Operator) -> (r: VMResult<bool>)
        requires
            old(self).valid(),
            old(self).program_counter < usize::MAX,
        ensures
            binary_done(op, without_flag(r), *old(self), *final(self)),
            r is Ok ==> r == Ok::<bool, VMError>(true) && final(self).program_counter == old(
                self,
            ).program_counter + 1,
            r is Err ==> final(self).program_counter == old(self).program_counter,
    {
        if let Err(e) = self.binary(op) {
            return Err(e);
        }
        self.program_counter = self.program_counter + 1;
        Ok(true)
    }

    pub fn addict(&mut self) -> (r: VMResult<()>)
        requires
            old(self).valid(),
        ensures
            binary_done(Operator::Add, r, *old(self), *final(self)),
            final(self).program_counter == old(self).program_counter,
    {
        self.binary(Operator::Add)
    }

    pub fn multiply(&mut self) -> (r: VMResult<()>)
        requires
            old(self).valid(),
        ensures
            binary_done(Operator::Multiply, r, *old(self), *final(self)),
            final(self).program_counter == old(self).program_counter,
    {
        self.binary(Operator::Multiply)
    }

    pub fn subtract(&mut self) -> (r: VMResult<()>)
        requires
            old(self).valid(),
        ensures
            binary_done(Operator::Subtract, r, *old(self), *final(self)),
            final(self).program_counter == old(self).program_counter,
    {
        self.binary(Operator::Subtract)
    }

    pub fn divide(&mut self) -> (r: VMResult<()>)
        requires
            old(self).valid(),
        ensures
            binary_done(Operator::Divide, r, *old(self), *final(self)),
            final(self).program_counter == old(self).program_counter,
    {
        self.binary(Operator::Divide)
    }

    pub fn module(&mut self) -> (r: VMResult<()>)
        requires
            old(self).valid(),
        ensures
            binary_done(Operator::Remainder, r, *old(self), *final(self)),
            final(self).program_counter == old(self).program_counter,
    {
        self.binary(Operator::Remainder)
    }

    pub fn less(&mut self) -> (r: VMResult<()>)
        requires
            old(self).valid(),
        ensures
            binary_done(Operator::Less, r, *old(self), *final(self)),
            final(self).program_counter == old(self).program_counter,
    {
        self.binary(Operator::Less)
    }

    pub fn greater(&mut self) -> (r: VMResult<()>)
        requires
            old(self).valid(),
        ensures
            binary_done(Operator::Greater, r, *old(self), *final(self)),
            final(self).program_counter == old(self).program_counter,
    {
        self.binary(Operator::Greater)
    }

    pub fn less_equals(&mut self) -> (r: VMResult<()>)
        requires
            old(self).valid(),
        ensures
            binary_done(Operator::LessEquals, r, *old(self), *final(self)),
            final(self).program_counter == old(self).program_counter,
    {
        self.binary(Operator::LessEquals)
    }

    pub fn greater_equals(&mut self) -> (r: VMResult<()>)
        requires
            old(self).valid(),
        ensures
            binary_done(Operator::GreaterEquals, r, *old(self), *final(self)),
            final(self).program_counter == old(self).program_counter,
    {
        self.binary(Operator::GreaterEquals)
    }

    pub fn equals(&mut self) -> (r: VMResult<()>)
        requires
            old(self).valid(),
        ensures
            binary_done(Operator::Equals, r, *old(self), *final(self)),
            final(self).program_counter == old(self).program_counter,
    {
        self.binary(Operator::Equals)
    }

    pub fn not_equals(&mut self) -> (r: VMResult<()>)
        requires
            old(self).valid(),
        ensures
            binary_done(Operator::NotEquals, r, *old(self), *final(self)),
            final(self).program_counter == old(self).program_counter,
    {
        self.binary(Operator::NotEquals)
    }
}

} // verus!
