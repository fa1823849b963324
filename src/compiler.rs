use vstd::prelude::*;

use crate::get::be_bytes;
use crate::opcode::{operator_of, ADD, DIV, END, EQ, GE, GR, LDI, LDR, LE, LS, MOD, MUL, NE, SUB};
use crate::push::{PushByte, PushData};
use crate::token::{Pos, RealLiteral, Token, TokenAndPos};
use crate::value::RealUnit;

verus! {

/// A token source that can be looked one token ahead into.
pub trait Stream {
    /// The tokens still to come, in order.
    spec fn rest(&self) -> Seq<TokenAndPos>;

    /// The stream's own invariant.
    spec fn valid(&self) -> bool;

    fn peek(&mut self) -> (r: Option<TokenAndPos>)
        requires
            old(self).valid(),
        ensures
            final(self).valid(),
            final(self).rest() == old(self).rest(),
            r == first_of(old(self).rest()),
    ;

    fn next(&mut self) -> (r: Option<TokenAndPos>)
        requires
            old(self).valid(),
        ensures
            final(self).valid(),
            final(self).rest() == after_first(old(self).rest()),
            r == first_of(old(self).rest()),
    ;
}

pub open spec fn first_of(ts: Seq<TokenAndPos>) -> Option<TokenAndPos> {
    if ts.len() > 0 {
        Some(ts[0])
    } else {
        None
    }
}

pub open spec fn after_first(ts: Seq<TokenAndPos>) -> Seq<TokenAndPos> {
    if ts.len() > 0 {
        ts.drop_first()
    } else {
        ts
    }
}

/// What went wrong in a compilation; `CompileError::pos` says where.
#[derive(Clone, Copy, Debug, PartialEq, Eq, Structural)]
pub enum Message {
    /// The source ended where a value was expected.
    UnexpectedEnd,
    /// An operator stood where a value was expected.
    ExpectedValue(Token),
    /// A complete expression was followed by more tokens.
    ExpectedEnd(Token),
}

#[derive(Clone, Copy, Debug, PartialEq, Eq, Structural)]
pub struct CompileError {
    pub message: Message,
    pub pos: Pos,
}

pub type CompileResult = Result<(), CompileError>;

/// One instruction of a compiled program.
#[derive(Clone, Copy, Debug, PartialEq, Eq, Structural)]
pub enum Instr {
    LoadInteger(i64),
    /// A real literal: its operand is the binary64 value that the real unit gave it.
    LoadReal(RealLiteral),
    Operation(u8),
    End,
}

pub open spec fn instr_size(i: Instr) -> nat {
    match i {
        Instr::LoadInteger(_) | Instr::LoadReal(_) => 9,
        _ => 1,
    }
}

/// Whether `b`, of `instr_size(i)` bytes, encodes `i`.
pub open spec fn instr_ok(b: Seq<u8>, i: Instr) -> bool {
    match i {
        Instr::LoadInteger(v) => b == seq![LDI] + be_bytes(v as u64),
        Instr::LoadReal(_) => b[0] == LDR,
        Instr::Operation(op) => b == seq![op] && operator_of(op) is Some,
        Instr::End => b == seq![END],
    }
}

/// Whether `b` is exactly the encoding of `code`, one instruction after another.
pub open spec fn encodes(b: Seq<u8>, code: Seq<Instr>) -> bool
    decreases code.len(),
{
    if code.len() == 0 {
        b.len() == 0
    } else {
        let n = instr_size(code[0]);
        n <= b.len() && instr_ok(b.take(n as int), code[0]) && encodes(
            b.skip(n as int),
            code.drop_first(),
        )
    }
}

/// Whether going from `before` to `after` appended exactly the encoding of `code`.
pub open spec fn emitted(before: Seq<u8>, after: Seq<u8>, code: Seq<Instr>) -> bool {
    before.len() <= after.len() && after.take(before.len() as int) == before && encodes(
        after.skip(before.len() as int),
        code,
    )
}

pub type Parsed = Result<(Seq<Instr>, Seq<TokenAndPos>), CompileError>;

pub open spec fn primary_spec(ts: Seq<TokenAndPos>) -> Parsed {
    if ts.len() == 0 {
        Err(CompileError { message: Message::UnexpectedEnd, pos: Pos { start: 0, end: 0 } })
    } else {
        match ts[0].token {
            Token::Integer(v) => Ok((seq![Instr::LoadInteger(v)], ts.drop_first())),
            Token::Real(l) => Ok((seq![Instr::LoadReal(l)], ts.drop_first())),
            _ => Err(CompileError { message: Message::ExpectedValue(ts[0].token), pos: ts[0].pos }),
        }
    }
}

pub open spec fn factor_op(t: Token) -> Option<u8> {
    match t {
        Token::Single(0x2a) => Some(MUL),
        Token::Single(0x2f) => Some(DIV),
        Token::Single(0x25) => Some(MOD),
        _ => None,
    }
}

pub open spec fn term_op(t: Token) -> Option<u8> {
    match t {
        Token::Single(0x2b) => Some(ADD),
        Token::Single(0x2d) => Some(SUB),
        _ => None,
    }
}

pub open spec fn comparison_op(t: Token) -> Option<u8> {
    match t {
        Token::Single(0x3c) => Some(LS),
        Token::Single(0x3e) => Some(GR),
        Token::Double(0x3c, 0x3d) => Some(LE),
        Token::Double(0x3e, 0x3d) => Some(GE),
        Token::Double(0x3d, 0x3d) => Some(EQ),
        Token::Double(0x21, 0x3d) => Some(NE),
        _ => None,
    }
}

/// Further `* / %` operands after the code `code` parsed so far.
pub open spec fn factor_tail(ts: Seq<TokenAndPos>, code: Seq<Instr>) -> Parsed
    decreases ts.len(),
{
    if ts.len() > 0 && factor_op(ts[0].token) is Some {
        match primary_spec(ts.drop_first()) {
            Ok((c, rest)) => if rest.len() < ts.len() {
                factor_tail(rest, code + c + seq![Instr::Operation(factor_op(ts[0].token)->0)])
            } else {
                Ok((code, ts))
            },
            Err(e) => Err(e),
        }
    } else {
        Ok((code, ts))
    }
}

pub open spec fn factor_spec(ts: Seq<TokenAndPos>) -> Parsed {
    match primary_spec(ts) {
        Ok((c, rest)) => factor_tail(rest, c),
        Err(e) => Err(e),
    }
}

/// Further `+ -` operands after the code `code` parsed so far.
pub open spec fn term_tail(ts: Seq<TokenAndPos>, code: Seq<Instr>) -> Parsed
    decreases ts.len(),
{
    if ts.len() > 0 && term_op(ts[0].token) is Some {
        match factor_spec(ts.drop_first()) {
            Ok((c, rest)) => if rest.len() < ts.len() {
                term_tail(rest, code + c + seq![Instr::Operation(term_op(ts[0].token)->0)])
            } else {
                Ok((code, ts))
            },
            Err(e) => Err(e),
        }
    } else {
        Ok((code, ts))
    }
}

pub open spec fn term_spec(ts: Seq<TokenAndPos>) -> Parsed {
    match factor_spec(ts) {
        Ok((c, rest)) => term_tail(rest, c),
        Err(e) => Err(e),
    }
}

/// A term, then at most one comparison with a second term.
pub open spec fn comparison_spec(ts: Seq<TokenAndPos>) -> Parsed {
    match term_spec(ts) {
        Ok((c, rest)) => if rest.len() > 0 && comparison_op(rest[0].token) is Some {
            match term_spec(rest.drop_first()) {
                Ok((c2, rest2)) => Ok(
                    (c + c2 + seq![Instr::Operation(comparison_op(rest[0].token)->0)], rest2),
                ),
                Err(e) => Err(e),
            }
        } else {
            Ok((c, rest))
        },
        Err(e) => Err(e),
    }
}

/// The program that a token sequence compiles to, or the first error in it.
pub open spec fn compile_spec(ts: Seq<TokenAndPos>) -> Result<Seq<Instr>, CompileError> {
    let parsed = if ts.len() > 0 {
        comparison_spec(ts)
    } else {
        Ok((Seq::empty(), ts))
    };
    match parsed {
        Ok((c, rest)) => if rest.len() > 0 {
            Err(CompileError { message: Message::ExpectedEnd(rest[0].token), pos: rest[0].pos })
        } else {
            Ok(c.push(Instr::End))
        },
        Err(e) => Err(e),
    }
}

proof fn lemma_encodes_append(a: Seq<u8>, c1: Seq<Instr>, b: Seq<u8>, c2: Seq<Instr>)
    requires
        encodes(a, c1),
        encodes(b, c2),
    ensures
        encodes(a + b, c1 + c2),
    decreases c1.len(),
{
    if c1.len() == 0 {
        assert(a + b =~= b);
        assert(c1 + c2 =~= c2);
    } else {
        let n = instr_size(c1[0]) as int;
        lemma_encodes_append(a.skip(n), c1.drop_first(), b, c2);
        assert((c1 + c2)[0] == c1[0]);
        assert((a + b).take(n) =~= a.take(n));
        assert((a + b).skip(n) =~= a.skip(n) + b);
        assert((c1 + c2).drop_first() =~= c1.drop_first() + c2);
    }
}

proof fn lemma_emitted_chain(a: Seq<u8>, b: Seq<u8>, d: Seq<u8>, c1: Seq<Instr>, c2: Seq<Instr>)
    requires
        emitted(a, b, c1),
        emitted(b, d, c2),
    ensures
        emitted(a, d, c1 + c2),
{
    assert(d.take(a.len() as int) =~= a) by {
        assert(d.take(a.len() as int) =~= d.take(b.len() as int).take(a.len() as int));
    }
    assert(d.skip(a.len() as int) =~= b.skip(a.len() as int) + d.skip(b.len() as int)) by {
        assert(d =~= d.take(b.len() as int) + d.skip(b.len() as int));
    }
    lemma_encodes_append(b.skip(a.len() as int), c1, d.skip(b.len() as int), c2);
}

proof fn lemma_emitted_one(a: Seq<u8>, b: Seq<u8>, i: Instr)
    requires
        a.len() + instr_size(i) == b.len(),
        b.take(a.len() as int) == a,
        instr_ok(b.skip(a.len() as int), i),
    ensures
        emitted(a, b, seq![i]),
{
    reveal_with_fuel(encodes, 2);
    let s = b.skip(a.len() as int);
    assert(seq![i][0] == i);
    assert(s.take(instr_size(i) as int) =~= s);
    assert(s.skip(instr_size(i) as int) =~= Seq::<u8>::empty());
    assert(seq![i].drop_first() =~= Seq::<Instr>::empty());
}

proof fn lemma_emitted_nothing(a: Seq<u8>)
    ensures
        emitted(a, a, Seq::empty()),
{
    assert(a.take(a.len() as int) =~= a);
    assert(a.skip(a.len() as int) =~= Seq::<u8>::empty());
}

proof fn lemma_factor_tail_len(ts: Seq<TokenAndPos>, code: Seq<Instr>)
    ensures
        factor_tail(ts, code) matches Ok((_, rest)) ==> rest.len() <= ts.len(),
    decreases ts.len(),
{
    if ts.len() > 0 && factor_op(ts[0].token) is Some {
        if let Ok((c, rest)) = primary_spec(ts.drop_first()) {
            if rest.len() < ts.len() {
                lemma_factor_tail_len(rest, code + c + seq![Instr::Operation(factor_op(ts[0].token)->0)]);
            }
        }
    }
}

proof fn lemma_factor_len(ts: Seq<TokenAndPos>)
    ensures
        factor_spec(ts) matches Ok((_, rest)) ==> rest.len() < ts.len(),
{
    if let Ok((c, rest)) = primary_spec(ts) {
        lemma_factor_tail_len(rest, c);
    }
}

proof fn lemma_term_tail_len(ts: Seq<TokenAndPos>, code: Seq<Instr>)
    ensures
        term_tail(ts, code) matches Ok((_, rest)) ==> rest.len() <= ts.len(),
    decreases ts.len(),
{
    if ts.len() > 0 && term_op(ts[0].token) is Some {
        if let Ok((c, rest)) = factor_spec(ts.drop_first()) {
            if rest.len() < ts.len() {
                lemma_term_tail_len(rest, code + c + seq![Instr::Operation(term_op(ts[0].token)->0)]);
            }
        }
    }
}

proof fn lemma_term_len(ts: Seq<TokenAndPos>)
    ensures
        term_spec(ts) matches Ok((_, rest)) ==> rest.len() < ts.len(),
{
    lemma_factor_len(ts);
    if let Ok((c, rest)) = factor_spec(ts) {
        lemma_term_tail_len(rest, c);
    }
}

/// Whether `code` holds no `END`.
pub open spec fn no_end(code: Seq<Instr>) -> bool {
    forall|i: int| 0 <= i < code.len() ==> !(#[trigger] code[i] is End)
}

/// Whether `after` is `before` followed by the encoding of some instructions, none of
/// them `END`: what a failed compilation leaves behind.
pub open spec fn partly_emitted(before: Seq<u8>, after: Seq<u8>) -> bool {
    exists|c: Seq<Instr>| #[trigger] emitted(before, after, c) && no_end(c)
}

proof fn lemma_no_end_step(x: Seq<Instr>, y: Seq<Instr>, op: u8)
    requires
        no_end(x),
        no_end(y),
    ensures
        no_end(x + y + seq![Instr::Operation(op)]),
{
    let z = x + y + seq![Instr::Operation(op)];
    assert forall|i: int| 0 <= i < z.len() implies !(#[trigger] z[i] is End) by {
        if i < x.len() {
            assert(z[i] == x[i]);
        } else if i < x.len() + y.len() {
            assert(z[i] == y[i - x.len()]);
        } else {
            assert(z[i] == Instr::Operation(op));
        }
    }
}

proof fn lemma_partly_here(a: Seq<u8>, b: Seq<u8>, c: Seq<Instr>)
    requires
        emitted(a, b, c),
        no_end(c),
    ensures
        partly_emitted(a, b),
{
}

proof fn lemma_partly_nothing(a: Seq<u8>)
    ensures
        partly_emitted(a, a),
{
    lemma_emitted_nothing(a);
    lemma_partly_here(a, a, Seq::empty());
}

proof fn lemma_partly_chain(a: Seq<u8>, b: Seq<u8>, d: Seq<u8>, c: Seq<Instr>)
    requires
        emitted(a, b, c),
        no_end(c),
        partly_emitted(b, d),
    ensures
        partly_emitted(a, d),
{
    let c2 = choose|c2: Seq<Instr>| #[trigger] emitted(b, d, c2) && no_end(c2);
    lemma_emitted_chain(a, b, d, c, c2);
    let z = c + c2;
    assert forall|i: int| 0 <= i < z.len() implies !(#[trigger] z[i] is End) by {
        if i < c.len() {
            assert(z[i] == c[i]);
        } else {
            assert(z[i] == c2[i - c.len()]);
        }
    }
    lemma_partly_here(a, d, z);
}

fn primary<S: Stream, P: PushByte, U: RealUnit>(
    stream: &mut S,
    builder: &mut P,
    unit: &U,
) -> (r: CompileResult)
    requires
        old(stream).valid(),
    ensures
        final(stream).valid(),
        match primary_spec(old(stream).rest()) {
            Ok((code, rest)) => r is Ok && final(stream).rest() == rest && emitted(
                old(builder).pushed(),
                final(builder).pushed(),
                code,
            ) && no_end(code),
            Err(e) => r == Err::<(), CompileError>(e) && partly_emitted(
                old(builder).pushed(),
                final(builder).pushed(),
            ) && final(builder).pushed() == old(builder).pushed(),
        },
{
    let ghost before = builder.pushed();
    proof {
        lemma_partly_nothing(before);
    }
    match stream.next() {
        Some(token_and_pos) => match token_and_pos.token {
            Token::Integer(value) => {
                builder.push_byte(LDI);
                builder.push_data(#[verifier::truncate] (value as u64));
                proof {
                    assert(builder.pushed().take(before.len() as int) =~= before);
                    assert(builder.pushed().skip(before.len() as int) =~= seq![LDI] + be_bytes(
                        value as u64,
                    ));
                    lemma_emitted_one(before, builder.pushed(), Instr::LoadInteger(value));
                }
                Ok(())
            },
            Token::Real(literal) => {
                builder.push_byte(LDR);
                builder.push_data(unit.decimal(literal));
                proof {
                    assert(builder.pushed().take(before.len() as int) =~= before);
                    assert(builder.pushed()[before.len() as int] == LDR);
                    lemma_emitted_one(before, builder.pushed(), Instr::LoadReal(literal));
                }
                Ok(())
            },
            _ => Err(CompileError { message: Message::ExpectedValue(token_and_pos.token), pos: token_and_pos.pos }),
        },
        None => Err(CompileError { message: Message::UnexpectedEnd, pos: Pos { start: 0, end: 0 } }),
    }
}

fn factor_opcode(t: &Token) -> (r: Option<u8>)
    ensures
        r == factor_op(*t),
{
    match t {
        Token::Single(0x2a) => Some(MUL),
        Token::Single(0x2f) => Some(DIV),
        Token::Single(0x25) => Some(MOD),
        _ => None,
    }
}

fn term_opcode(t: &Token) -> (r: Option<u8>)
    ensures
        r == term_op(*t),
{
    match t {
        Token::Single(0x2b) => Some(ADD),
        Token::Single(0x2d) => Some(SUB),
        _ => None,
    }
}

fn comparison_opcode(t: &Token) -> (r: Option<u8>)
    ensures
        r == comparison_op(*t),
{
    match t {
        Token::Single(0x3c) => Some(LS),
        Token::Single(0x3e) => Some(GR),
        Token::Double(0x3c, 0x3d) => Some(LE),
        Token::Double(0x3e, 0x3d) => Some(GE),
        Token::Double(0x3d, 0x3d) => Some(EQ),
        Token::Double(0x21, 0x3d) => Some(NE),
        _ => None,
    }
}

fn factor<S: Stream, P: PushByte, U: RealUnit>(
    stream: &mut S,
    builder: &mut P,
    unit: &U,
) -> (r: CompileResult)
    requires
        old(stream).valid(),
    ensures
        final(stream).valid(),
        match factor_spec(old(stream).rest()) {
            Ok((code, rest)) => r is Ok && final(stream).rest() == rest && emitted(
                old(builder).pushed(),
                final(builder).pushed(),
                code,
            ) && no_end(code),
            Err(e) => r == Err::<(), CompileError>(e) && partly_emitted(
                old(builder).pushed(),
                final(builder).pushed(),
            ),
        },
{
    let ghost before = builder.pushed();
    let ghost target = factor_spec(stream.rest());
    let ghost mut code: Seq<Instr> = Seq::empty();
    proof {
        if let Ok((c, _)) = primary_spec(stream.rest()) {
            code = c;
        }
    }
    if let Err(e) = primary(stream, builder, unit) {
        proof {
            lemma_partly_nothing(before);
        }
        return Err(e);
    }
    loop
        invariant
            stream.valid(),
            target == factor_spec(old(stream).rest()),
            before == old(builder).pushed(),
            target == factor_tail(stream.rest(), code),
            emitted(before, builder.pushed(), code),
            no_end(code),
        ensures
            target == Ok::<(Seq<Instr>, Seq<TokenAndPos>), CompileError>((code, stream.rest())),
            emitted(before, builder.pushed(), code),
            no_end(code),
        decreases stream.rest().len(),
    {
        let token_and_pos = match stream.peek() {
            Some(t) => t,
            None => break,
        };
        let opcode = match factor_opcode(&token_and_pos.token) {
            Some(op) => op,
            None => break,
        };
        stream.next();
        let ghost mid = builder.pushed();
        let ghost operand = primary_spec(stream.rest());
        if let Err(e) = primary(stream, builder, unit) {
            proof {
                lemma_partly_here(before, mid, code);
            }
            return Err(e);
        }
        let ghost after = builder.pushed();
        builder.push_byte(opcode);
        proof {
            let c = operand->Ok_0.0;
            lemma_emitted_chain(before, mid, after, code, c);
            assert(builder.pushed().take(after.len() as int) =~= after);
            assert(builder.pushed().skip(after.len() as int) =~= seq![opcode]);
            lemma_emitted_one(after, builder.pushed(), Instr::Operation(opcode));
            lemma_emitted_chain(before, after, builder.pushed(), code + c, seq![Instr::Operation(opcode)]);
            lemma_no_end_step(code, c, opcode);
            code = code + c + seq![Instr::Operation(opcode)];
        }
    }
    Ok(())
}

fn term<S: Stream, P: PushByte, U: RealUnit>(
    stream: &mut S,
    builder: &mut P,
    unit: &U,
) -> (r: CompileResult)
    requires
        old(stream).valid(),
    ensures
        final(stream).valid(),
        match term_spec(old(stream).rest()) {
            Ok((code, rest)) => r is Ok && final(stream).rest() == rest && emitted(
                old(builder).pushed(),
                final(builder).pushed(),
                code,
            ) && no_end(code),
            Err(e) => r == Err::<(), CompileError>(e) && partly_emitted(
                old(builder).pushed(),
                final(builder).pushed(),
            ),
        },
{
    let ghost before = builder.pushed();
    let ghost target = term_spec(stream.rest());
    let ghost mut code: Seq<Instr> = Seq::empty();
    proof {
        if let Ok((c, _)) = factor_spec(stream.rest()) {
            code = c;
        }
    }
    if let Err(e) = factor(stream, builder, unit) {
        return Err(e);
    }
    loop
        invariant
            stream.valid(),
            target == term_spec(old(stream).rest()),
            before == old(builder).pushed(),
            target == term_tail(stream.rest(), code),
            emitted(before, builder.pushed(), code),
            no_end(code),
        ensures
            target == Ok::<(Seq<Instr>, Seq<TokenAndPos>), CompileError>((code, stream.rest())),
            emitted(before, builder.pushed(), code),
            no_end(code),
        decreases stream.rest().len(),
    {
        let token_and_pos = match stream.peek() {
            Some(t) => t,
            None => break,
        };
        let opcode = match term_opcode(&token_and_pos.token) {
            Some(op) => op,
            None => break,
        };
        stream.next();
        let ghost mid = builder.pushed();
        let ghost operand = factor_spec(stream.rest());
        proof {
            lemma_factor_len(stream.rest());
        }
        if let Err(e) = factor(stream, builder, unit) {
            proof {
                lemma_partly_chain(before, mid, builder.pushed(), code);
            }
            return Err(e);
        }
        let ghost after = builder.pushed();
        builder.push_byte(opcode);
        proof {
            let c = operand->Ok_0.0;
            lemma_emitted_chain(before, mid, after, code, c);
            assert(builder.pushed().take(after.len() as int) =~= after);
            assert(builder.pushed().skip(after.len() as int) =~= seq![opcode]);
            lemma_emitted_one(after, builder.pushed(), Instr::Operation(opcode));
            lemma_emitted_chain(before, after, builder.pushed(), code + c, seq![Instr::Operation(opcode)]);
            lemma_no_end_step(code, c, opcode);
            code = code + c + seq![Instr::Operation(opcode)];
        }
    }
    Ok(())
}

fn comparison<S: Stream, P: PushByte, U: RealUnit>(
    stream: &mut S,
    builder: &mut P,
    unit: &U,
) -> (r: CompileResult)
    requires
        old(stream).valid(),
    ensures
        final(stream).valid(),
        match comparison_spec(old(stream).rest()) {
            Ok((code, rest)) => r is Ok && final(stream).rest() == rest && emitted(
                old(builder).pushed(),
                final(builder).pushed(),
                code,
            ) && no_end(code),
            Err(e) => r == Err::<(), CompileError>(e) && partly_emitted(
                old(builder).pushed(),
                final(builder).pushed(),
            ),
        },
{
    let ghost before = builder.pushed();
    let ghost first = term_spec(stream.rest());
    if let Err(e) = term(stream, builder, unit) {
        return Err(e);
    }
    let ghost mid = builder.pushed();
    if let Some(token_and_pos) = stream.peek() {
        if let Some(opcode) = comparison_opcode(&token_and_pos.token) {
            stream.next();
            let ghost second = term_spec(stream.rest());
            if let Err(e) = term(stream, builder, unit) {
                proof {
                    lemma_partly_chain(before, mid, builder.pushed(), first->Ok_0.0);
                }
                return Err(e);
            }
            let ghost after = builder.pushed();
            builder.push_byte(opcode);
            proof {
                let c1 = first->Ok_0.0;
                let c2 = second->Ok_0.0;
                lemma_emitted_chain(before, mid, after, c1, c2);
                assert(builder.pushed().take(after.len() as int) =~= after);
                assert(builder.pushed().skip(after.len() as int) =~= seq![opcode]);
                lemma_emitted_one(after, builder.pushed(), Instr::Operation(opcode));
                lemma_emitted_chain(before, after, builder.pushed(), c1 + c2, seq![Instr::Operation(opcode)]);
                lemma_no_end_step(c1, c2, opcode);
            }
        }
    }
    Ok(())
}

fn expression<S: Stream, P: PushByte, U: RealUnit>(
    stream: &mut S,
    builder: &mut P,
    unit: &U,
) -> (r: CompileResult)
    requires
        old(stream).valid(),
    ensures
        final(stream).valid(),
        match comparison_spec(old(stream).rest()) {
            Ok((code, rest)) => r is Ok && final(stream).rest() == rest && emitted(
                old(builder).pushed(),
                final(builder).pushed(),
                code,
            ) && no_end(code),
            Err(e) => r == Err::<(), CompileError>(e) && partly_emitted(
                old(builder).pushed(),
                final(builder).pushed(),
            ),
        },
{
    comparison(stream, builder, unit)
}

/// Compiles a whole token stream into `builder`, ending the program with `END`.
///
/// On success the bytes appended are exactly the encoding of `compile_spec` of the
/// stream's tokens, and the stream is used up. On failure the error is the first one
/// in the tokens; `builder` keeps its old bytes, followed by a partial program without
/// `END`, which is to be discarded.
pub fn compile<S: Stream, P: PushByte, U: RealUnit>(
    stream: &mut S,
    builder: &mut P,
    unit: &U,
) -> (r: CompileResult)
    requires
        old(stream).valid(),
    ensures
        final(stream).valid(),
        match compile_spec(old(stream).rest()) {
            Ok(code) => r is Ok && emitted(old(builder).pushed(), final(builder).pushed(), code)
                && final(stream).rest().len() == 0,
            Err(e) => r == Err::<(), CompileError>(e) && partly_emitted(
                old(builder).pushed(),
                final(builder).pushed(),
            ),
        },
{
    let ghost before = builder.pushed();
    let ghost ts = stream.rest();
    let ghost mut code: Seq<Instr> = Seq::empty();
    if stream.peek().is_some() {
        if let Err(e) = expression(stream, builder, unit) {
            return Err(e);
        }
        proof {
            code = comparison_spec(ts)->Ok_0.0;
        }
    } else {
        proof {
            lemma_emitted_nothing(before);
        }
    }
    match stream.next() {
        Some(token_and_pos) => {
            proof {
                lemma_partly_here(before, builder.pushed(), code);
            }
            Err(
                CompileError {
                    message: Message::ExpectedEnd(token_and_pos.token),
                    pos: token_and_pos.pos,
                },
            )
        },
        None => {
            let ghost mid = builder.pushed();
            builder.push_byte(END);
            proof {
                assert(builder.pushed().take(mid.len() as int) =~= mid);
                assert(builder.pushed().skip(mid.len() as int) =~= seq![END]);
                lemma_emitted_one(mid, builder.pushed(), Instr::End);
                lemma_emitted_chain(before, mid, builder.pushed(), code, seq![Instr::End]);
                assert(code + seq![Instr::End] =~= code.push(Instr::End));
            }
            Ok(())
        },
    }
}

} // verus!
