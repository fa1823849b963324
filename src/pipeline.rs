use vstd::prelude::*;

use crate::compiler::{
    comparison_op, compile, compile_spec, emitted, encodes, factor_op, factor_spec, factor_tail,
    instr_size, primary_spec, term_op, term_spec, term_tail, CompileError, Instr,
};
use crate::impls::{data_stack, slice_reader, static_data, token_stream, vec_push};
use crate::lexer::{
    is_digit, is_space, lex_spec, push_digit, scan_number, skip_spaces, tokens_from, tokens_of,
};
use crate::token::{Pos, Token, TokenAndPos};
use crate::push::{IntoGetByte, PushByte};
use crate::state::{admits, apply_spec, is_number, Approx, Fault, State, VMError};
use crate::opcode::{operator_of, ADD, DIV, EQ, GE, GR, LE, LS, MOD, MUL, NE, SUB};
use crate::value::{RealUnit, Value};
use crate::vm::{exec_code, exec_end, lemma_run_encoded, run, run_end, run_spec};

verus! {

/// Why a source produced no value.
#[derive(Clone, Copy, Debug, PartialEq, Eq, Structural)]
pub enum Failure {
    Compile(CompileError),
    /// The machine stopped with this error; the fault names the operator and
    /// operands of a failed operation.
    Runtime(VMError, Option<Fault>),
}

/// What compiling and running `source` on a stack of `cap` slots gives (a runtime
/// failure carries no fault here).
pub open spec fn evaluation(source: Seq<u8>, cap: nat) -> Result<Approx, Failure> {
    match compile_spec(tokens_of(source)) {
        Err(e) => Err(Failure::Compile(e)),
        Ok(code) => match exec_code(code, Seq::empty(), cap) {
            Ok(a) => Ok(a),
            Err(e) => Err(Failure::Runtime(e, None)),
        },
    }
}

/// Whether `r` is an outcome that `expected` describes; a failed operation comes with
/// its fault.
pub open spec fn outcome_ok(expected: Result<Approx, Failure>, r: Result<Value, Failure>) -> bool {
    match expected {
        Ok(a) => r is Ok && admits(a, r->Ok_0),
        Err(Failure::Compile(e)) => r == Err::<Value, Failure>(Failure::Compile(e)),
        Err(Failure::Runtime(e, _)) => r is Err && r->Err_0 is Runtime && r->Err_0->Runtime_0 == e
            && (e == VMError::BinaryOperator || e == VMError::DividingByZero ==> r->Err_0->Runtime_1
            is Some),
    }
}

/// Compiles `slice` and runs it on a stack of `capacity` slots, with `unit` doing
/// the arithmetic on reals.
pub fn run_slice<U: RealUnit>(slice: &[u8], unit: U, capacity: usize) -> (r: Result<
    Value,
    Failure,
>)
    ensures
        outcome_ok(evaluation(slice@, capacity as nat), r),
{
    let reader = slice_reader::new(slice);
    let mut stream = token_stream::new(reader);
    let mut builder = vec_push::new();
    if let Err(error) = compile(&mut stream, &mut builder, &unit) {
        return Err(Failure::Compile(error));
    }
    let ghost bytes = builder.pushed();
    let program = builder.into_get_byte();
    // Asking for the length shows that it fits a `usize`, as `run` needs.
    let _length = program.len();
    let mut state = State::new(data_stack::new(static_data::new(capacity)), unit);
    let ghost code = compile_spec(tokens_of(slice@))->Ok_0;
    proof {
        assert(bytes.skip(0) =~= bytes);
        assert(state.values() =~= Seq::<Value>::empty());
        assert(crate::state::exacts(state.values()) =~= Seq::<Approx>::empty());
        lemma_run_encoded(bytes, 0, code, Seq::empty(), Seq::empty(), capacity as nat);
    }
    match run(&mut state, &program) {
        Ok(value) => Ok(value),
        Err(error) => Err(Failure::Runtime(error, state.message)),
    }
}

/// Whether `s` is a non-empty run of decimal digits.
pub open spec fn is_numeral(s: Seq<u8>) -> bool {
    s.len() > 0 && forall|i: int| 0 <= i < s.len() ==> is_digit(#[trigger] s[i])
}

/// The number that the decimal digits of `s` spell.
pub open spec fn numeral_value(s: Seq<u8>) -> nat
    decreases s.len(),
{
    if s.len() == 0 {
        0
    } else {
        numeral_value(s.drop_last()) * 10 + (s.last() - 0x30) as nat
    }
}

proof fn lemma_numeral_prefix(s: Seq<u8>, i: nat)
    requires
        is_numeral(s),
        i <= s.len(),
    ensures
        numeral_value(s.take(i as int)) <= numeral_value(s),
    decreases s.len() - i,
{
    if i < s.len() {
        lemma_numeral_prefix(s, i + 1);
        assert(s.take(i + 1int).drop_last() =~= s.take(i as int));
    } else {
        assert(s.take(i as int) =~= s);
    }
}

proof fn lemma_scan_numeral(s: Seq<u8>, i: nat)
    requires
        is_numeral(s),
        1 <= i <= s.len(),
        numeral_value(s) <= i64::MAX,
    ensures
        scan_number(s, i, numeral_value(s.take(i as int)) as i64, false, 0) == (
            numeral_value(s) as i64,
            0nat,
            s.len(),
        ),
    decreases s.len() - i,
{
    if i < s.len() {
        let acc = numeral_value(s.take(i as int));
        let next = numeral_value(s.take(i + 1int));
        assert(s.take(i + 1int).drop_last() =~= s.take(i as int));
        assert(is_digit(s[i as int]));
        assert(next == acc * 10 + (s[i as int] - 0x30) as nat);
        lemma_numeral_prefix(s, i + 1);
        assert(acc * 10 <= next);
        vstd::arithmetic::div_mod::lemma_small_mod((acc * 10) as nat, 0x1_0000_0000_0000_0000nat);
        assert(push_digit(acc as i64, s[i as int]) == next as i64);
        lemma_scan_numeral(s, i + 1);
    } else {
        assert(s.take(i as int) =~= s);
    }
}

/// Every decimal numeral within range of `i64` compiles and runs to its own value,
/// on any stack with room for one value.
pub proof fn lemma_integer_literal(s: Seq<u8>, cap: nat)
    requires
        is_numeral(s),
        numeral_value(s) <= i64::MAX,
        s.len() <= usize::MAX,
        cap >= 1,
    ensures
        evaluation(s, cap) == Ok::<Approx, Failure>(
            Approx::Exact(Value::Integer(numeral_value(s) as i64)),
        ),
{
    let v = numeral_value(s) as i64;
    assert(is_digit(s[0]));
    assert(s.take(1).drop_last() =~= Seq::<u8>::empty());
    assert(numeral_value(Seq::<u8>::empty()) == 0);
    assert(s.take(1).last() == s[0]);
    assert(numeral_value(s.take(1)) == (s[0] - 0x30) as nat);
    lemma_scan_numeral(s, 1);
    let t = TokenAndPos { token: Token::Integer(v), pos: Pos { start: 0, end: s.len() as usize } };
    assert(tokens_from(s, s.len()) == Seq::<TokenAndPos>::empty());
    assert(tokens_of(s) =~= seq![t]);
    let ts = seq![t];
    assert(ts.drop_first() =~= Seq::<TokenAndPos>::empty());
    let code = seq![Instr::LoadInteger(v), Instr::End];
    assert(compile_spec(ts) == Ok::<Seq<Instr>, CompileError>(code)) by {
        assert(seq![Instr::LoadInteger(v)].push(Instr::End) =~= code);
    }
    reveal_with_fuel(exec_code, 3);
    assert(code.drop_first() =~= seq![Instr::End]);
    assert(Seq::<Approx>::empty().push(Approx::Exact(Value::Integer(v))).last() == Approx::Exact(
        Value::Integer(v),
    ));
}

proof fn lemma_blank_skipped(s: Seq<u8>, i: nat)
    requires
        i <= s.len(),
        forall|k: int| 0 <= k < s.len() ==> is_space(#[trigger] s[k]),
    ensures
        skip_spaces(s, i) == s.len(),
    decreases s.len() - i,
{
    if i < s.len() {
        assert(is_space(s[i as int]));
        lemma_blank_skipped(s, i + 1);
    }
}

/// A source of nothing but whitespace compiles to a lone `END`, and running it
/// fails with `StackUnderflow`: no value was produced to pop.
pub proof fn lemma_blank_source(s: Seq<u8>, cap: nat)
    requires
        forall|k: int| 0 <= k < s.len() ==> is_space(#[trigger] s[k]),
    ensures
        tokens_of(s) == Seq::<TokenAndPos>::empty(),
        compile_spec(tokens_of(s)) == Ok::<Seq<Instr>, CompileError>(seq![Instr::End]),
        evaluation(s, cap) == Err::<Approx, Failure>(Failure::Runtime(VMError::StackUnderflow, None)),
{
    lemma_blank_skipped(s, 0);
    assert(lex_spec(s, 0) is None);
    assert(Seq::<Instr>::empty().push(Instr::End) =~= seq![Instr::End]);
    reveal_with_fuel(exec_code, 2);
}

/// Whether a program's instructions have no real literal.
pub open spec fn no_reals(code: Seq<Instr>) -> bool {
    forall|i: int| 0 <= i < code.len() ==> !(#[trigger] code[i] is LoadReal)
}

proof fn lemma_encoding_unique(b1: Seq<u8>, b2: Seq<u8>, code: Seq<Instr>)
    requires
        encodes(b1, code),
        encodes(b2, code),
    ensures
        b1.len() == b2.len(),
        no_reals(code) ==> b1 == b2,
    decreases code.len(),
{
    if code.len() > 0 {
        let n = instr_size(code[0]) as int;
        lemma_encoding_unique(b1.skip(n), b2.skip(n), code.drop_first());
        if no_reals(code) {
            assert(!(code[0] is LoadReal));
            assert(no_reals(code.drop_first())) by {
                assert forall|i: int| 0 <= i < code.drop_first().len() implies !(
                #[trigger] code.drop_first()[i] is LoadReal) by {
                    assert(code.drop_first()[i] == code[i + 1]);
                }
            }
            assert(b1.take(n) == b2.take(n));
            assert(b1 =~= b1.take(n) + b1.skip(n));
            assert(b2 =~= b2.take(n) + b2.skip(n));
        }
    } else {
        assert(b1 =~= b2);
    }
}

/// Compiling the same tokens twice appends the same number of bytes, and, where no
/// real literal is among them, the very same bytes (a real's operand is what the
/// real unit gave).
pub proof fn lemma_compile_deterministic(
    ts: Seq<TokenAndPos>,
    before1: Seq<u8>,
    after1: Seq<u8>,
    before2: Seq<u8>,
    after2: Seq<u8>,
)
    requires
        compile_spec(ts) is Ok,
        emitted(before1, after1, compile_spec(ts)->Ok_0),
        emitted(before2, after2, compile_spec(ts)->Ok_0),
    ensures
        after1.len() - before1.len() == after2.len() - before2.len(),
        no_reals(compile_spec(ts)->Ok_0) ==> after1.skip(before1.len() as int) == after2.skip(
            before2.len() as int,
        ),
{
    lemma_encoding_unique(
        after1.skip(before1.len() as int),
        after2.skip(before2.len() as int),
        compile_spec(ts)->Ok_0,
    );
}

/// Lexing depends on the bytes and the offset alone: lexing the same source twice
/// gives the same tokens.
pub proof fn lemma_lexing_deterministic(s1: Seq<u8>, s2: Seq<u8>)
    requires
        s1 == s2,
    ensures
        tokens_of(s1) == tokens_of(s2),
{
}

proof fn lemma_exec_capacity(code: Seq<Instr>, a: Seq<Approx>, cap1: nat, cap2: nat)
    requires
        cap1 <= cap2,
    ensures
        exec_code(code, a, cap1) == exec_code(code, a, cap2) || exec_code(code, a, cap1) == Err::<
            Approx,
            VMError,
        >(VMError::StackOverflow),
    decreases code.len(),
{
    if code.len() > 0 {
        match code[0] {
            Instr::LoadInteger(v) => {
                lemma_exec_capacity(
                    code.drop_first(),
                    a.push(Approx::Exact(Value::Integer(v))),
                    cap1,
                    cap2,
                );
            },
            Instr::LoadReal(_) => {
                lemma_exec_capacity(code.drop_first(), a.push(Approx::AnyReal), cap1, cap2);
            },
            Instr::Operation(opcode) => {
                if let Some(op) = operator_of(opcode) {
                    if let Ok(a2) = apply_spec(op, a) {
                        lemma_exec_capacity(code.drop_first(), a2, cap1, cap2);
                    }
                }
            },
            Instr::End => {},
        }
    }
}

/// A smaller stack never changes what a source gives, but for failing with
/// `StackOverflow`: it never truncates.
pub proof fn lemma_capacity(s: Seq<u8>, cap1: nat, cap2: nat)
    requires
        cap1 <= cap2,
    ensures
        evaluation(s, cap1) == evaluation(s, cap2) || evaluation(s, cap1) == Err::<
            Approx,
            Failure,
        >(Failure::Runtime(VMError::StackOverflow, None)),
{
    if let Ok(code) = compile_spec(tokens_of(s)) {
        lemma_exec_capacity(code, Seq::empty(), cap1, cap2);
    }
}

/// Every expression needs room for at least one value: with none, it fails with
/// `StackOverflow`.
pub proof fn lemma_no_room(s: Seq<u8>)
    requires
        compile_spec(tokens_of(s)) is Ok,
        tokens_of(s).len() > 0,
    ensures
        evaluation(s, 0) == Err::<Approx, Failure>(Failure::Runtime(VMError::StackOverflow, None)),
{
    let ts = tokens_of(s);
    lemma_factor_head(ts);
    if let Ok((c, rest)) = factor_spec(ts) {
        lemma_term_tail_head(rest, c);
        if let Ok((c1, rest1)) = term_spec(ts) {
            if rest1.len() > 0 && comparison_op(rest1[0].token) is Some {
                if let Ok((c2, _)) = term_spec(rest1.drop_first()) {
                    assert((c1 + c2 + seq![Instr::Operation(comparison_op(rest1[0].token)->0)])[0]
                        == c1[0]);
                }
            }
        }
    }
    let code = compile_spec(ts)->Ok_0;
    assert(code[0] is LoadInteger || code[0] is LoadReal);
}

proof fn lemma_factor_tail_head(ts: Seq<TokenAndPos>, code: Seq<Instr>)
    requires
        code.len() > 0,
    ensures
        factor_tail(ts, code) matches Ok((c, _)) ==> c.len() > 0 && c[0] == code[0],
    decreases ts.len(),
{
    if ts.len() > 0 && factor_op(ts[0].token) is Some {
        if let Ok((c, rest)) = primary_spec(ts.drop_first()) {
            if rest.len() < ts.len() {
                let next = code + c + seq![Instr::Operation(factor_op(ts[0].token)->0)];
                assert(next[0] == code[0]);
                lemma_factor_tail_head(rest, next);
            }
        }
    }
}

proof fn lemma_term_tail_head(ts: Seq<TokenAndPos>, code: Seq<Instr>)
    requires
        code.len() > 0,
    ensures
        term_tail(ts, code) matches Ok((c, _)) ==> c.len() > 0 && c[0] == code[0],
    decreases ts.len(),
{
    if ts.len() > 0 && term_op(ts[0].token) is Some {
        if let Ok((c, rest)) = factor_spec(ts.drop_first()) {
            if rest.len() < ts.len() {
                let next = code + c + seq![Instr::Operation(term_op(ts[0].token)->0)];
                assert(next[0] == code[0]);
                lemma_term_tail_head(rest, next);
            }
        }
    }
}

/// A factor's code starts with a load.
proof fn lemma_factor_head(ts: Seq<TokenAndPos>)
    ensures
        factor_spec(ts) matches Ok((c, _)) ==> c.len() > 0 && (c[0] is LoadInteger
            || c[0] is LoadReal),
{
    if let Ok((c, rest)) = primary_spec(ts) {
        lemma_factor_tail_head(rest, c);
    }
}

pub open spec fn is_arithmetic(opcode: u8) -> bool {
    opcode == ADD || opcode == SUB || opcode == MUL || opcode == DIV || opcode == MOD
}

pub open spec fn is_comparison(opcode: u8) -> bool {
    opcode == LS || opcode == GR || opcode == LE || opcode == GE || opcode == EQ || opcode == NE
}

/// Whether `code` holds loads and arithmetic operations only.
pub open spec fn arithmetic_only(code: Seq<Instr>) -> bool {
    forall|i: int|
        0 <= i < code.len() ==> match #[trigger] code[i] {
            Instr::Operation(op) => is_arithmetic(op),
            Instr::End => false,
            _ => true,
        }
}

/// Whether every value on the stack is a number.
pub open spec fn numbers_only(a: Seq<Approx>) -> bool {
    forall|i: int| 0 <= i < a.len() ==> is_number(#[trigger] a[i])
}

proof fn lemma_arithmetic_concat(x: Seq<Instr>, y: Seq<Instr>)
    requires
        arithmetic_only(x),
        arithmetic_only(y),
    ensures
        arithmetic_only(x + y),
{
    assert forall|i: int| 0 <= i < (x + y).len() implies match #[trigger] (x + y)[i] {
        Instr::Operation(op) => is_arithmetic(op),
        Instr::End => false,
        _ => true,
    } by {
        if i < x.len() {
            assert((x + y)[i] == x[i]);
        } else {
            assert((x + y)[i] == y[i - x.len()]);
        }
    }
}

proof fn lemma_arithmetic_step(x: Seq<Instr>, y: Seq<Instr>, op: u8)
    requires
        arithmetic_only(x),
        arithmetic_only(y),
        is_arithmetic(op),
    ensures
        arithmetic_only(x + y + seq![Instr::Operation(op)]),
{
    lemma_arithmetic_concat(x, y);
    assert(arithmetic_only(seq![Instr::Operation(op)])) by {
        assert forall|i: int| 0 <= i < 1 implies match #[trigger] seq![Instr::Operation(op)][i] {
            Instr::Operation(o) => is_arithmetic(o),
            Instr::End => false,
            _ => true,
        } by {
            assert(seq![Instr::Operation(op)][i] == Instr::Operation(op));
        }
    }
    lemma_arithmetic_concat(x + y, seq![Instr::Operation(op)]);
}

proof fn lemma_factor_tail_arithmetic(ts: Seq<TokenAndPos>, code: Seq<Instr>)
    requires
        arithmetic_only(code),
    ensures
        factor_tail(ts, code) matches Ok((c, _)) ==> arithmetic_only(c),
    decreases ts.len(),
{
    if ts.len() > 0 && factor_op(ts[0].token) is Some {
        if let Ok((c, rest)) = primary_spec(ts.drop_first()) {
            if rest.len() < ts.len() {
                let op = factor_op(ts[0].token)->0;
                assert(arithmetic_only(c)) by {
                    assert(c[0] is LoadInteger || c[0] is LoadReal);
                }
                lemma_arithmetic_step(code, c, op);
                lemma_factor_tail_arithmetic(rest, code + c + seq![Instr::Operation(op)]);
            }
        }
    }
}

proof fn lemma_factor_arithmetic(ts: Seq<TokenAndPos>)
    ensures
        factor_spec(ts) matches Ok((c, _)) ==> arithmetic_only(c),
{
    if let Ok((c, rest)) = primary_spec(ts) {
        assert(arithmetic_only(c)) by {
            assert(c[0] is LoadInteger || c[0] is LoadReal);
        }
        lemma_factor_tail_arithmetic(rest, c);
    }
}

proof fn lemma_term_tail_arithmetic(ts: Seq<TokenAndPos>, code: Seq<Instr>)
    requires
        arithmetic_only(code),
    ensures
        term_tail(ts, code) matches Ok((c, _)) ==> arithmetic_only(c),
    decreases ts.len(),
{
    if ts.len() > 0 && term_op(ts[0].token) is Some {
        lemma_factor_arithmetic(ts.drop_first());
        if let Ok((c, rest)) = factor_spec(ts.drop_first()) {
            if rest.len() < ts.len() {
                let op = term_op(ts[0].token)->0;
                lemma_arithmetic_step(code, c, op);
                lemma_term_tail_arithmetic(rest, code + c + seq![Instr::Operation(op)]);
            }
        }
    }
}

proof fn lemma_term_arithmetic(ts: Seq<TokenAndPos>)
    ensures
        term_spec(ts) matches Ok((c, _)) ==> arithmetic_only(c),
{
    lemma_factor_arithmetic(ts);
    if let Ok((c, rest)) = factor_spec(ts) {
        lemma_term_tail_arithmetic(rest, c);
    }
}

/// Arithmetic on numbers, then `END` or one comparison and `END`, never meets an
/// operand that is not a number.
proof fn lemma_numbers_stay(body: Seq<Instr>, tail: Seq<Instr>, a: Seq<Approx>, cap: nat)
    requires
        arithmetic_only(body),
        numbers_only(a),
        tail == seq![Instr::End] || (tail.len() == 2 && tail[0] is Operation && is_comparison(
            tail[0]->Operation_0,
        ) && tail[1] == Instr::End),
    ensures
        exec_code(body + tail, a, cap) != Err::<Approx, VMError>(VMError::BinaryOperator),
    decreases body.len(),
{
    let code = body + tail;
    if body.len() == 0 {
        assert(code =~= tail);
        if tail.len() == 2 && a.len() >= 2 {
            let op = operator_of(tail[0]->Operation_0)->Some_0;
            assert(is_number(a[a.len() - 2]) && is_number(a[a.len() - 1]));
            assert(tail.drop_first() =~= seq![Instr::End]);
            if let Ok(a2) = apply_spec(op, a) {
                assert(exec_code(tail.drop_first(), a2, cap) is Ok || exec_code(
                    tail.drop_first(),
                    a2,
                    cap,
                ) == Err::<Approx, VMError>(VMError::StackUnderflow));
            }
        }
    } else {
        assert(code[0] == body[0]);
        assert(code.drop_first() =~= body.drop_first() + tail);
        assert(arithmetic_only(body.drop_first())) by {
            assert forall|i: int| 0 <= i < body.drop_first().len() implies match #[trigger] body.drop_first()[i] {
                Instr::Operation(op) => is_arithmetic(op),
                Instr::End => false,
                _ => true,
            } by {
                assert(body.drop_first()[i] == body[i + 1]);
            }
        }
        assert(match body[0] {
            Instr::Operation(op) => is_arithmetic(op),
            Instr::End => false,
            _ => true,
        });
        match body[0] {
            Instr::LoadInteger(v) => {
                let x = Approx::Exact(Value::Integer(v));
                assert(numbers_only(a.push(x))) by {
                    assert forall|i: int| 0 <= i < a.push(x).len() implies is_number(#[trigger] a.push(x)[i]) by {
                        if i < a.len() {
                            assert(a.push(x)[i] == a[i]);
                        }
                    }
                }
                lemma_numbers_stay(body.drop_first(), tail, a.push(x), cap);
            },
            Instr::LoadReal(_) => {
                let x = Approx::AnyReal;
                assert(numbers_only(a.push(x))) by {
                    assert forall|i: int| 0 <= i < a.push(x).len() implies is_number(#[trigger] a.push(x)[i]) by {
                        if i < a.len() {
                            assert(a.push(x)[i] == a[i]);
                        }
                    }
                }
                lemma_numbers_stay(body.drop_first(), tail, a.push(x), cap);
            },
            Instr::Operation(opcode) => {
                let op = operator_of(opcode)->Some_0;
                if a.len() >= 2 {
                    assert(is_number(a[a.len() - 2]) && is_number(a[a.len() - 1]));
                    if let Ok(a2) = apply_spec(op, a) {
                        assert(numbers_only(a2)) by {
                            assert forall|i: int| 0 <= i < a2.len() implies is_number(#[trigger] a2[i]) by {
                                if i < a2.len() - 1 {
                                    assert(a2[i] == a[i]);
                                }
                            }
                        }
                        lemma_numbers_stay(body.drop_first(), tail, a2, cap);
                    }
                }
            },
            Instr::End => {},
        }
    }
}

/// The grammar never feeds a comparison's boolean into another operator, and no
/// literal is a boolean: no source fails with `BinaryOperator`.
pub proof fn lemma_no_operand_mismatch(s: Seq<u8>, cap: nat)
    ensures
        !(evaluation(s, cap) matches Err(Failure::Runtime(VMError::BinaryOperator, _))),
{
    let ts = tokens_of(s);
    if let Ok(code) = compile_spec(ts) {
        let empty = Seq::<Approx>::empty();
        if ts.len() == 0 {
            assert(code =~= Seq::<Instr>::empty() + seq![Instr::End]);
            lemma_numbers_stay(Seq::empty(), seq![Instr::End], empty, cap);
        } else {
            lemma_term_arithmetic(ts);
            let (c1, rest1) = term_spec(ts)->Ok_0;
            if rest1.len() > 0 && comparison_op(rest1[0].token) is Some {
                lemma_term_arithmetic(rest1.drop_first());
                let (c2, _) = term_spec(rest1.drop_first())->Ok_0;
                let cmp = comparison_op(rest1[0].token)->0;
                lemma_arithmetic_concat(c1, c2);
                let tail = seq![Instr::Operation(cmp), Instr::End];
                assert(code =~= (c1 + c2) + tail);
                lemma_numbers_stay(c1 + c2, tail, empty, cap);
            } else {
                assert(code =~= c1 + seq![Instr::End]);
                lemma_numbers_stay(c1, seq![Instr::End], empty, cap);
            }
        }
    }
}

/// How many values `code` leaves on the stack, net: one per load, minus one per
/// operation.
pub open spec fn net(code: Seq<Instr>) -> int
    decreases code.len(),
{
    if code.len() == 0 {
        0
    } else {
        (match code[0] {
            Instr::LoadInteger(_) | Instr::LoadReal(_) => 1int,
            Instr::Operation(_) => -1int,
            Instr::End => 0int,
        }) + net(code.drop_first())
    }
}

proof fn lemma_net_concat(x: Seq<Instr>, y: Seq<Instr>)
    ensures
        net(x + y) == net(x) + net(y),
    decreases x.len(),
{
    if x.len() == 0 {
        assert(x + y =~= y);
    } else {
        lemma_net_concat(x.drop_first(), y);
        assert((x + y).drop_first() =~= x.drop_first() + y);
        assert((x + y)[0] == x[0]);
    }
}

proof fn lemma_net_step(x: Seq<Instr>, y: Seq<Instr>, op: u8)
    ensures
        net(x + y + seq![Instr::Operation(op)]) == net(x) + net(y) - 1,
{
    lemma_net_concat(x, y);
    lemma_net_concat(x + y, seq![Instr::Operation(op)]);
    reveal_with_fuel(net, 2);
    assert(seq![Instr::Operation(op)].drop_first() =~= Seq::<Instr>::empty());
}

proof fn lemma_factor_tail_net(ts: Seq<TokenAndPos>, code: Seq<Instr>)
    ensures
        factor_tail(ts, code) matches Ok((c, _)) ==> net(c) == net(code),
    decreases ts.len(),
{
    if ts.len() > 0 && factor_op(ts[0].token) is Some {
        if let Ok((c, rest)) = primary_spec(ts.drop_first()) {
            if rest.len() < ts.len() {
                let op = factor_op(ts[0].token)->0;
                reveal_with_fuel(net, 2);
                assert(c.drop_first() =~= Seq::<Instr>::empty());
                lemma_net_step(code, c, op);
                lemma_factor_tail_net(rest, code + c + seq![Instr::Operation(op)]);
            }
        }
    }
}

proof fn lemma_factor_net(ts: Seq<TokenAndPos>)
    ensures
        factor_spec(ts) matches Ok((c, _)) ==> net(c) == 1,
{
    if let Ok((c, rest)) = primary_spec(ts) {
        reveal_with_fuel(net, 2);
        assert(c.drop_first() =~= Seq::<Instr>::empty());
        lemma_factor_tail_net(rest, c);
    }
}

proof fn lemma_term_tail_net(ts: Seq<TokenAndPos>, code: Seq<Instr>)
    ensures
        term_tail(ts, code) matches Ok((c, _)) ==> net(c) == net(code),
    decreases ts.len(),
{
    if ts.len() > 0 && term_op(ts[0].token) is Some {
        lemma_factor_net(ts.drop_first());
        if let Ok((c, rest)) = factor_spec(ts.drop_first()) {
            if rest.len() < ts.len() {
                let op = term_op(ts[0].token)->0;
                lemma_net_step(code, c, op);
                lemma_term_tail_net(rest, code + c + seq![Instr::Operation(op)]);
            }
        }
    }
}

proof fn lemma_term_net(ts: Seq<TokenAndPos>)
    ensures
        term_spec(ts) matches Ok((c, _)) ==> net(c) == 1,
{
    lemma_factor_net(ts);
    if let Ok((c, rest)) = factor_spec(ts) {
        lemma_term_tail_net(rest, c);
    }
}

/// Running loads and arithmetic, then `END` or one comparison and `END`, reaches
/// `END` with the stack grown by what the instructions leave, net.
proof fn lemma_exec_net(body: Seq<Instr>, tail: Seq<Instr>, a: Seq<Approx>, cap: nat)
    requires
        arithmetic_only(body),
        tail == seq![Instr::End] || (tail.len() == 2 && tail[0] is Operation && is_comparison(
            tail[0]->Operation_0,
        ) && tail[1] == Instr::End),
        exec_code(body + tail, a, cap) is Ok,
    ensures
        exec_end(body + tail, a, cap).len() == a.len() + net(body) - (tail.len() - 1),
    decreases body.len(),
{
    let code = body + tail;
    if body.len() == 0 {
        assert(code =~= tail);
        assert(net(body) == 0);
        if tail.len() == 2 {
            assert(tail.drop_first() =~= seq![Instr::End]);
            let op = operator_of(tail[0]->Operation_0)->Some_0;
            assert(apply_spec(op, a) is Ok);
            assert(exec_end(tail, a, cap) == exec_end(tail.drop_first(), apply_spec(op, a)->Ok_0, cap));
        } else {
            assert(exec_end(tail, a, cap) == a);
        }
    } else {
        assert(code[0] == body[0]);
        assert(code.drop_first() =~= body.drop_first() + tail);
        assert(arithmetic_only(body.drop_first())) by {
            assert forall|i: int| 0 <= i < body.drop_first().len() implies match #[trigger] body.drop_first()[i] {
                Instr::Operation(op) => is_arithmetic(op),
                Instr::End => false,
                _ => true,
            } by {
                assert(body.drop_first()[i] == body[i + 1]);
            }
        }
        assert(match body[0] {
            Instr::Operation(op) => is_arithmetic(op),
            Instr::End => false,
            _ => true,
        });
        match body[0] {
            Instr::LoadInteger(v) => {
                lemma_exec_net(
                    body.drop_first(),
                    tail,
                    a.push(Approx::Exact(Value::Integer(v))),
                    cap,
                );
            },
            Instr::LoadReal(_) => {
                lemma_exec_net(body.drop_first(), tail, a.push(Approx::AnyReal), cap);
            },
            Instr::Operation(opcode) => {
                let op = operator_of(opcode)->Some_0;
                let a2 = apply_spec(op, a)->Ok_0;
                lemma_exec_net(body.drop_first(), tail, a2, cap);
            },
            Instr::End => {},
        }
    }
}

/// A compiled program that runs to its `END` holds exactly one value there, so
/// after `run` pops the result the stack it started empty is empty again.
pub proof fn lemma_one_result(s: Seq<u8>, bytes: Seq<u8>, cap: nat)
    requires
        compile_spec(tokens_of(s)) is Ok,
        encodes(bytes, compile_spec(tokens_of(s))->Ok_0),
        run_spec(bytes, 0, Seq::empty(), cap) is Ok,
    ensures
        run_end(bytes, 0, Seq::empty(), cap).1.len() == 1,
{
    let ts = tokens_of(s);
    let code = compile_spec(ts)->Ok_0;
    let empty = Seq::<Approx>::empty();
    assert(bytes.skip(0) =~= bytes);
    assert(crate::vm::coarser(empty, empty));
    lemma_run_encoded(bytes, 0, code, empty, empty, cap);
    if ts.len() == 0 {
        reveal_with_fuel(exec_code, 2);
        assert(code =~= seq![Instr::End]);
    } else {
        lemma_term_arithmetic(ts);
        lemma_term_net(ts);
        let (c1, rest1) = term_spec(ts)->Ok_0;
        if rest1.len() > 0 && comparison_op(rest1[0].token) is Some {
            lemma_term_arithmetic(rest1.drop_first());
            lemma_term_net(rest1.drop_first());
            let (c2, _) = term_spec(rest1.drop_first())->Ok_0;
            let cmp = comparison_op(rest1[0].token)->0;
            lemma_arithmetic_concat(c1, c2);
            lemma_net_concat(c1, c2);
            let tail = seq![Instr::Operation(cmp), Instr::End];
            assert(code =~= (c1 + c2) + tail);
            lemma_exec_net(c1 + c2, tail, empty, cap);
        } else {
            assert(code =~= c1 + seq![Instr::End]);
            lemma_exec_net(c1, seq![Instr::End], empty, cap);
        }
    }
}

} // verus!
