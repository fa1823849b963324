use tpc::compiler::{compile, Stream};
use tpc::impls::boxed_get::BoxedGet;
use tpc::impls::data_stack::Data;
use tpc::impls::{data_stack, slice_reader, static_data, token_stream, vec_push};
use tpc::opcode::{ADD, DIV, END, LDI, LDR, LS, MOD, SUB};
use tpc::push::{IntoGetByte, PushByte};
use tpc::state::{Fault, State, VMError};
use tpc::token::{Pos, RealLiteral, Token, TokenAndPos};
use tpc::value::{Operator, RealUnit, Value};
use tpc::vm::run;

struct Float;

impl RealUnit for Float {
    fn decimal(&self, literal: RealLiteral) -> u64 {
        (literal.digits as f64 / 10u64.pow(literal.scale as u32) as f64).to_bits()
    }

    fn promote(&self, value: i64) -> u64 {
        (value as f64).to_bits()
    }

    fn arithmetic(&self, op: Operator, left: u64, right: u64) -> u64 {
        let (l, r) = (f64::from_bits(left), f64::from_bits(right));
        match op {
            Operator::Add => (l + r).to_bits(),
            Operator::Subtract => (l - r).to_bits(),
            Operator::Multiply => (l * r).to_bits(),
            Operator::Divide => (l / r).to_bits(),
            _ => (l % r).to_bits(),
        }
    }

    fn compare(&self, op: Operator, left: u64, right: u64) -> bool {
        let (l, r) = (f64::from_bits(left), f64::from_bits(right));
        match op {
            Operator::Less => l < r,
            _ => l == r,
        }
    }
}

fn load(opcode: u8, word: u64) -> Vec<u8> {
    let mut v = vec![opcode];
    v.extend_from_slice(&word.to_be_bytes());
    v
}

fn execute(bytes: Vec<u8>) -> (Result<Value, VMError>, Option<Fault>) {
    let program = BoxedGet::new(bytes);
    let mut state = State::new(data_stack::new(static_data::new(16)), Float);
    let r = run(&mut state, &program);
    (r, state.message)
}

fn compiled(source: &str) -> Vec<u8> {
    let mut stream = token_stream::new(slice_reader::new(source.as_bytes()));
    let mut builder = vec_push::new();
    assert!(compile(&mut stream, &mut builder, &Float).is_ok());
    let program = builder.into_get_byte();
    (0..program.len()).map(|i| tpc::get::GetByte::get_byte(&program, i).unwrap()).collect()
}

fn tokens(source: &str) -> Vec<TokenAndPos> {
    let mut stream = token_stream::new(slice_reader::new(source.as_bytes()));
    let mut out = Vec::new();
    while let Some(t) = stream.next() {
        out.push(t);
    }
    out
}

#[test]
fn boolean_operand_is_a_binary_operator_error() {
    let mut bytes = load(LDI, 1);
    bytes.extend(load(LDI, 2));
    bytes.push(LS);
    bytes.extend(load(LDI, 1));
    bytes.push(ADD);
    bytes.push(END);
    let (r, fault) = execute(bytes);
    assert_eq!(r, Err(VMError::BinaryOperator));
    let fault = fault.unwrap();
    assert_eq!(fault.operator, Operator::Add);
    assert_eq!(fault.operator.symbol(), "+");
    assert_eq!(fault.left, Value::Boolean(true));
    assert_eq!(fault.right, Value::Integer(1));
}

#[test]
fn unknown_opcode_is_rejected() {
    assert_eq!(execute(vec![0xFF]).0, Err(VMError::UnknownInstruction));
}

#[test]
fn truncated_operand_fails_to_fetch() {
    assert_eq!(execute(vec![LDI, 0, 0, 1]).0, Err(VMError::OpcodeFetch));
    assert_eq!(execute(load(LDI, 5)).0, Err(VMError::OpcodeFetch));
    assert_eq!(execute(vec![]).0, Err(VMError::OpcodeFetch));
}

#[test]
fn operator_on_empty_stack_underflows() {
    assert_eq!(execute(vec![ADD, END]).0, Err(VMError::StackUnderflow));
    let mut bytes = load(LDI, 1);
    bytes.push(SUB);
    assert_eq!(execute(bytes).0, Err(VMError::StackUnderflow));
}

#[test]
fn signed_division_truncates_toward_zero() {
    let minus_seven = (-7i64) as u64;
    let mut bytes = load(LDI, minus_seven);
    bytes.extend(load(LDI, 2));
    bytes.push(DIV);
    bytes.push(END);
    assert_eq!(execute(bytes).0, Ok(Value::Integer(-3)));
    let mut bytes = load(LDI, minus_seven);
    bytes.extend(load(LDI, 2));
    bytes.push(MOD);
    bytes.push(END);
    assert_eq!(execute(bytes).0, Ok(Value::Integer(-1)));
    let mut bytes = load(LDI, 7);
    bytes.extend(load(LDI, (-2i64) as u64));
    bytes.push(MOD);
    bytes.push(END);
    assert_eq!(execute(bytes).0, Ok(Value::Integer(1)));
}

#[test]
fn most_negative_over_minus_one_wraps() {
    let mut bytes = load(LDI, i64::MIN as u64);
    bytes.extend(load(LDI, (-1i64) as u64));
    bytes.push(DIV);
    bytes.push(END);
    assert_eq!(execute(bytes).0, Ok(Value::Integer(i64::MIN)));
    let mut bytes = load(LDI, i64::MIN as u64);
    bytes.extend(load(LDI, (-1i64) as u64));
    bytes.push(MOD);
    bytes.push(END);
    assert_eq!(execute(bytes).0, Ok(Value::Integer(0)));
}

#[test]
fn real_load_keeps_its_bits() {
    let mut bytes = load(LDR, 2.75f64.to_bits());
    bytes.push(END);
    assert_eq!(execute(bytes).0, Ok(Value::Real(2.75f64.to_bits())));
}

#[test]
fn compiled_bytecode_layout() {
    let mut expected = load(LDI, 2);
    expected.extend(load(LDI, 3));
    expected.extend(load(LDI, 4));
    expected.push(tpc::opcode::MUL);
    expected.push(ADD);
    expected.push(END);
    assert_eq!(compiled("2 + 3 * 4"), expected);
    assert_eq!(compiled(""), vec![END]);
    let mut expected = load(LDR, 0.5f64.to_bits());
    expected.push(END);
    assert_eq!(compiled("0.5"), expected);
}

#[test]
fn compiling_twice_gives_the_same_bytes() {
    assert_eq!(compiled("1 + 2 * 3 < 4 % 5"), compiled("1 + 2 * 3 < 4 % 5"));
    assert_eq!(compiled("1.5 * 2"), compiled("1.5 * 2"));
}

#[test]
fn lexing_twice_gives_the_same_tokens() {
    assert_eq!(tokens(" 12 <= 3.25 != x"), tokens(" 12 <= 3.25 != x"));
}

#[test]
fn tokens_and_positions() {
    let ts = tokens(" 12 <= 3.25 != x");
    assert_eq!(ts.len(), 5);
    assert_eq!(ts[0], TokenAndPos { token: Token::Integer(12), pos: Pos { start: 1, end: 3 } });
    assert_eq!(ts[1], TokenAndPos { token: Token::Double(b'<', b'='), pos: Pos { start: 4, end: 6 } });
    assert_eq!(
        ts[2],
        TokenAndPos { token: Token::Real(RealLiteral { digits: 325, scale: 2 }), pos: Pos { start: 7, end: 11 } }
    );
    assert_eq!(ts[3].token, Token::Double(b'!', b'='));
    assert_eq!(ts[4], TokenAndPos { token: Token::Single(b'x'), pos: Pos { start: 15, end: 16 } });
}

#[test]
fn lone_operators_and_dots() {
    let ts = tokens("= ! < > 1. 2.5.5 <<");
    let kinds: Vec<Token> = ts.iter().map(|t| t.token).collect();
    assert_eq!(
        kinds,
        vec![
            Token::Single(b'='),
            Token::Single(b'!'),
            Token::Single(b'<'),
            Token::Single(b'>'),
            Token::Integer(1),
            Token::Real(RealLiteral { digits: 25, scale: 1 }),
            Token::Single(b'.'),
            Token::Integer(5),
            Token::Single(b'<'),
            Token::Single(b'<'),
        ]
    );
}

#[test]
fn error_descriptions() {
    assert_eq!(VMError::StackOverflow.description(), "Stack overflow.");
    assert_eq!(VMError::DividingByZero.description(), "Dividing by zero.");
    assert_eq!(VMError::OpcodeFetch.description(), "Unable to fetch opcode.");
}

fn program_bytes(builder: tpc::impls::vec_push::VecPush) -> Vec<u8> {
    let program = builder.into_get_byte();
    (0..program.len()).map(|i| tpc::get::GetByte::get_byte(&program, i).unwrap()).collect()
}

#[test]
fn failed_compilation_keeps_prefix_without_end() {
    let mut stream = token_stream::new(slice_reader::new(b"1 < 2 < 3"));
    let mut builder = vec_push::new();
    builder.push_byte(0xAA);
    assert!(compile(&mut stream, &mut builder, &Float).is_err());
    let mut expected = vec![0xAA];
    expected.extend(load(LDI, 1));
    expected.extend(load(LDI, 2));
    expected.push(LS);
    assert_eq!(program_bytes(builder), expected);
}

#[test]
fn successful_compilation_uses_up_the_stream() {
    let mut stream = token_stream::new(slice_reader::new(b"1 + 2"));
    let mut builder = vec_push::new();
    assert!(compile(&mut stream, &mut builder, &Float).is_ok());
    assert_eq!(stream.peek(), None);
}

#[test]
fn run_leaves_an_empty_stack() {
    let program = BoxedGet::new(compiled("1 + 2 * 3"));
    let mut state = State::new(data_stack::new(static_data::new(16)), Float);
    assert_eq!(run(&mut state, &program), Ok(Value::Integer(7)));
    assert_eq!(state.pop(), Err(VMError::StackUnderflow));
    assert_eq!(state.message, None);
}

#[test]
fn failed_operator_pops_both_operands() {
    let mut bytes = load(LDI, 9);
    bytes.extend(load(LDI, 5));
    bytes.extend(load(LDI, 0));
    bytes.push(DIV);
    bytes.push(END);
    let program = BoxedGet::new(bytes);
    let mut state = State::new(data_stack::new(static_data::new(16)), Float);
    assert_eq!(run(&mut state, &program), Err(VMError::DividingByZero));
    assert_eq!(state.program_counter, 27);
    assert_eq!(state.pop(), Ok(Value::Integer(9)));
    assert_eq!(state.pop(), Err(VMError::StackUnderflow));
}

#[test]
fn unknown_opcode_leaves_state_alone() {
    let mut bytes = load(LDI, 4);
    bytes.push(0x7F);
    let program = BoxedGet::new(bytes);
    let mut state = State::new(data_stack::new(static_data::new(16)), Float);
    assert_eq!(run(&mut state, &program), Err(VMError::UnknownInstruction));
    assert_eq!(state.program_counter, 9);
    assert_eq!(state.message, None);
    assert_eq!(state.pop(), Ok(Value::Integer(4)));
}

#[test]
fn empty_program_underflows_at_its_start() {
    let program = BoxedGet::new(compiled(""));
    let mut state = State::new(data_stack::new(static_data::new(16)), Float);
    assert_eq!(run(&mut state, &program), Err(VMError::StackUnderflow));
    assert_eq!(state.program_counter, 0);
    assert_eq!(state.message, None);
}

#[test]
fn fresh_slots_are_void() {
    let data = static_data::new(3);
    assert_eq!(data.len(), 3);
    assert_eq!(data.get(2), Some(Value::Void));
    assert_eq!(data.get(3), None);
}
