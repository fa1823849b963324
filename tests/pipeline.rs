use tpc::compiler::{CompileError, Message};
use tpc::pipeline::{run_slice as evaluate, Failure};
use tpc::state::{Fault, VMError};
use tpc::token::{Pos, RealLiteral, Token};
use tpc::value::{Operator, RealUnit, Value};

struct Float;

fn as_float(bits: u64) -> f64 {
    f64::from_bits(bits)
}

impl RealUnit for Float {
    fn decimal(&self, literal: RealLiteral) -> u64 {
        let scale = if literal.scale <= 19 {
            10u64.pow(literal.scale as u32) as f64
        } else {
            10f64.powi(literal.scale as i32)
        };
        (literal.digits as f64 / scale).to_bits()
    }

    fn promote(&self, value: i64) -> u64 {
        (value as f64).to_bits()
    }

    fn arithmetic(&self, op: Operator, left: u64, right: u64) -> u64 {
        let (l, r) = (as_float(left), as_float(right));
        let v = match op {
            Operator::Add => l + r,
            Operator::Multiply => l * r,
            Operator::Subtract => l - r,
            Operator::Divide => l / r,
            Operator::Remainder => l % r,
            _ => f64::NAN,
        };
        v.to_bits()
    }

    fn compare(&self, op: Operator, left: u64, right: u64) -> bool {
        let (l, r) = (as_float(left), as_float(right));
        match op {
            Operator::Less => l < r,
            Operator::Greater => l > r,
            Operator::LessEquals => l <= r,
            Operator::GreaterEquals => l >= r,
            Operator::Equals => l == r,
            _ => l != r,
        }
    }
}

fn run_slice(source: &str) -> Option<Value> {
    evaluate(source.as_bytes(), Float, 256).ok()
}

fn outcome(source: &str) -> Result<Value, Failure> {
    evaluate(source.as_bytes(), Float, 256)
}

fn runtime_error(source: &str) -> VMError {
    match outcome(source) {
        Err(Failure::Runtime(e, _)) => e,
        other => panic!("expected a runtime error, got {:?}", other),
    }
}

fn compile_failure(source: &str) -> CompileError {
    match outcome(source) {
        Err(Failure::Compile(e)) => e,
        other => panic!("expected a compile error, got {:?}", other),
    }
}

#[test]
fn base_test() {
    assert_eq!(run_slice("2 + 2 * 2"), Some(Value::Integer(6)))
}

#[test]
fn multiplication_binds_tighter_on_the_left_too() {
    assert_eq!(run_slice("2 * 2 + 2"), Some(Value::Integer(6)));
    assert_eq!(run_slice("10 - 2 - 3"), Some(Value::Integer(5)));
    assert_eq!(run_slice("100 / 10 / 5"), Some(Value::Integer(2)));
}

#[test]
fn integer_literals_evaluate_to_themselves() {
    assert_eq!(run_slice("0"), Some(Value::Integer(0)));
    assert_eq!(run_slice("42"), Some(Value::Integer(42)));
    assert_eq!(run_slice("  007 "), Some(Value::Integer(7)));
    assert_eq!(run_slice("9223372036854775807"), Some(Value::Integer(i64::MAX)));
}

#[test]
fn integer_division_truncates() {
    assert_eq!(run_slice("7 / 2"), Some(Value::Integer(3)));
    assert_eq!(run_slice("7 % 2"), Some(Value::Integer(1)));
    assert_eq!(run_slice("0 - 7 / 2"), Some(Value::Integer(-3)));
}

#[test]
fn real_division_gives_a_real() {
    assert_eq!(run_slice("7 / 2.0"), Some(Value::Real(3.5f64.to_bits())));
    assert_eq!(run_slice("1.5 + 1"), Some(Value::Real(2.5f64.to_bits())));
    assert_eq!(run_slice("0.25 * 4"), Some(Value::Real(1.0f64.to_bits())));
}

#[test]
fn dividing_by_integer_zero_fails() {
    assert_eq!(runtime_error("5 % 0"), VMError::DividingByZero);
    assert_eq!(runtime_error("5 / 0"), VMError::DividingByZero);
}

#[test]
fn dividing_by_zero_records_the_operands() {
    match outcome("5 / 0") {
        Err(Failure::Runtime(_, fault)) => assert_eq!(
            fault,
            Some(Fault { operator: Operator::Divide, left: Value::Integer(5), right: Value::Integer(0) })
        ),
        other => panic!("unexpected {:?}", other),
    }
}

#[test]
fn real_division_by_zero_is_infinite() {
    match run_slice("5.0 / 0") {
        Some(Value::Real(bits)) => assert!(as_float(bits).is_infinite() && as_float(bits) > 0.0),
        other => panic!("unexpected {:?}", other),
    }
}

#[test]
fn comparisons_do_not_chain() {
    let e = compile_failure("1 < 2 < 3");
    assert_eq!(e.message, Message::ExpectedEnd(Token::Single(b'<')));
    assert_eq!(e.pos, Pos { start: 6, end: 7 });
}

#[test]
fn comparisons_give_booleans() {
    assert_eq!(run_slice("1 < 2"), Some(Value::Boolean(true)));
    assert_eq!(run_slice("2 <= 1"), Some(Value::Boolean(false)));
    assert_eq!(run_slice("1 + 1 == 2"), Some(Value::Boolean(true)));
    assert_eq!(run_slice("3 != 3"), Some(Value::Boolean(false)));
    assert_eq!(run_slice("2.5 > 2"), Some(Value::Boolean(true)));
    assert_eq!(run_slice("2 >= 2.5"), Some(Value::Boolean(false)));
}

#[test]
fn blank_source_underflows() {
    assert_eq!(runtime_error(""), VMError::StackUnderflow);
    assert_eq!(runtime_error(" \t\r\n"), VMError::StackUnderflow);
}

#[test]
fn too_small_a_stack_overflows() {
    let e = evaluate(b"1 + 2 * 3", Float, 2);
    assert!(matches!(e, Err(Failure::Runtime(VMError::StackOverflow, _))));
    assert_eq!(evaluate(b"1 + 2 * 3", Float, 3), Ok(Value::Integer(7)));
    let e = evaluate(b"1", Float, 0);
    assert!(matches!(e, Err(Failure::Runtime(VMError::StackOverflow, _))));
}

#[test]
fn integer_arithmetic_wraps() {
    assert_eq!(run_slice("9223372036854775807 + 1"), Some(Value::Integer(i64::MIN)));
    assert_eq!(run_slice("0 - 9223372036854775807 - 2"), Some(Value::Integer(i64::MAX)));
    assert_eq!(run_slice("4611686018427387904 * 2"), Some(Value::Integer(i64::MIN)));
}

#[test]
fn missing_operand_is_unexpected_end() {
    let e = compile_failure("1 +");
    assert_eq!(e.message, Message::UnexpectedEnd);
    assert_eq!(e.pos, Pos { start: 0, end: 0 });
}

#[test]
fn operator_in_place_of_value() {
    let e = compile_failure("* 2");
    assert_eq!(e.message, Message::ExpectedValue(Token::Single(b'*')));
    assert_eq!(e.pos, Pos { start: 0, end: 1 });
    let e = compile_failure("1 + <= 2");
    assert_eq!(e.message, Message::ExpectedValue(Token::Double(b'<', b'=')));
    assert_eq!(e.pos, Pos { start: 4, end: 6 });
}

#[test]
fn trailing_tokens_are_rejected() {
    let e = compile_failure("1 2");
    assert_eq!(e.message, Message::ExpectedEnd(Token::Integer(2)));
    assert_eq!(e.pos, Pos { start: 2, end: 3 });
    let e = compile_failure("1 2.5");
    assert_eq!(e.message, Message::ExpectedEnd(Token::Real(RealLiteral { digits: 25, scale: 1 })));
}

#[test]
fn shift_like_pairs_are_two_tokens() {
    let e = compile_failure("1 << 2");
    assert_eq!(e.message, Message::ExpectedValue(Token::Single(b'<')));
    assert_eq!(e.pos, Pos { start: 3, end: 4 });
    let e = compile_failure("1 >> 2");
    assert_eq!(e.message, Message::ExpectedValue(Token::Single(b'>')));
    assert_eq!(e.pos, Pos { start: 3, end: 4 });
}

#[test]
fn operator_symbols() {
    assert_eq!(Operator::Add.symbol(), "+");
    assert_eq!(Operator::Remainder.symbol(), "%");
    assert_eq!(Operator::GreaterEquals.symbol(), ">=");
    assert_eq!(Operator::NotEquals.symbol(), "!=");
}
