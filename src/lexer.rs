use vstd::prelude::*;
use vstd::wrapping::i64_specs;

use crate::token::{Pos, RealLiteral, Token, TokenAndPos};

verus! {

/// A cursor over a byte source.
pub trait Reader {
    /// The whole source the cursor walks.
    spec fn source(&self) -> Seq<u8>;

    /// The cursor's byte offset into `source()`.
    spec fn position(&self) -> nat;

    fn current(&mut self) -> (r: Option<u8>)
        ensures
            final(self).source() == old(self).source(),
            final(self).position() == old(self).position(),
            r == byte_at(old(self).source(), old(self).position()),
    ;

    fn advance(&mut self)
        requires
            old(self).position() < old(self).source().len(),
        ensures
            final(self).source() == old(self).source(),
            final(self).position() == old(self).position() + 1,
    ;

    fn offset(&self) -> (r: usize)
        ensures
            r == self.position(),
    ;
}

pub open spec fn byte_at(s: Seq<u8>, i: nat) -> Option<u8> {
    if i < s.len() {
        Some(s[i as int])
    } else {
        None
    }
}

/// A reader that may be lexed from: its cursor stands within its source.
pub open spec fn reader_ok<R: Reader>(r: R) -> bool {
    r.position() <= r.source().len() && r.source().len() <= usize::MAX
}

pub open spec fn is_space(c: u8) -> bool {
    c == 0x20 || c == 0x09 || c == 0x0d || c == 0x0a
}

pub open spec fn is_digit(c: u8) -> bool {
    0x30 <= c <= 0x39
}

/// The first offset at or after `i` that does not hold whitespace.
pub open spec fn skip_spaces(s: Seq<u8>, i: nat) -> nat
    decreases s.len() - i,
{
    if i < s.len() && is_space(s[i as int]) {
        skip_spaces(s, i + 1)
    } else {
        i
    }
}

/// Appends a decimal digit to an accumulator, wrapping on overflow.
pub open spec fn push_digit(acc: i64, c: u8) -> i64 {
    i64_specs::wrapping_add(i64_specs::wrapping_mul(acc, 10), (c - 0x30) as i64)
}

/// Reads the rest of a number from offset `i`: the accumulated digits, whether a
/// dot was consumed, the count of digits after it, and the offset where it ends.
pub open spec fn scan_number(s: Seq<u8>, i: nat, acc: i64, dot: bool, scale: nat) -> (
    i64,
    nat,
    nat,
)
    decreases s.len() - i,
{
    if i < s.len() && is_digit(s[i as int]) {
        scan_number(s, i + 1, push_digit(acc, s[i as int]), dot, if dot {
            scale + 1
        } else {
            scale
        })
    } else if i < s.len() && s[i as int] == 0x2e && !dot {
        scan_number(s, i + 1, acc, true, scale)
    } else {
        (acc, scale, i)
    }
}

/// The number token whose first digit `c` stood just before offset `i`, and its end.
pub open spec fn number_spec(s: Seq<u8>, i: nat, c: u8) -> (Token, nat) {
    let (acc, scale, end) = scan_number(s, i, (c - 0x30) as i64, false, 0);
    if scale == 0 {
        (Token::Integer(acc), end)
    } else {
        (Token::Real(RealLiteral { digits: acc, scale: scale as usize }), end)
    }
}

/// Whether `c0` followed by `c1` forms a two-character operator.
pub open spec fn pairs(c0: u8, c1: u8) -> bool {
    (c0 == 0x3d || c0 == 0x21 || c0 == 0x3c || c0 == 0x3e) && c1 == 0x3d
}

/// The token whose first byte `c` stood just before offset `i`, and its end.
pub open spec fn token_spec(s: Seq<u8>, i: nat, c: u8) -> (Token, nat) {
    if is_digit(c) {
        number_spec(s, i, c)
    } else if i < s.len() && pairs(c, s[i as int]) {
        (Token::Double(c, s[i as int]), i + 1)
    } else {
        (Token::Single(c), i)
    }
}

/// The token that lexing from offset `i` yields, and the offset after it.
pub open spec fn lex_spec(s: Seq<u8>, i: nat) -> Option<(TokenAndPos, nat)> {
    let start = skip_spaces(s, i);
    if start < s.len() {
        let (token, end) = token_spec(s, start + 1, s[start as int]);
        Some((TokenAndPos { token, pos: Pos { start: start as usize, end: end as usize } }, end))
    } else {
        None
    }
}

/// Every token of `s` from offset `i` on, in order.
pub open spec fn tokens_from(s: Seq<u8>, i: nat) -> Seq<TokenAndPos>
    decreases s.len() - i,
{
    match lex_spec(s, i) {
        Some((t, end)) => if i < end <= s.len() {
            seq![t] + tokens_from(s, end)
        } else {
            Seq::empty()
        },
        None => Seq::empty(),
    }
}

/// The tokens of a whole source.
pub open spec fn tokens_of(s: Seq<u8>) -> Seq<TokenAndPos> {
    tokens_from(s, 0)
}

proof fn lemma_skip_spaces(s: Seq<u8>, i: nat)
    requires
        i <= s.len(),
    ensures
        i <= skip_spaces(s, i) <= s.len(),
    decreases s.len() - i,
{
    if i < s.len() && is_space(s[i as int]) {
        lemma_skip_spaces(s, i + 1);
    }
}

proof fn lemma_scan_number(s: Seq<u8>, i: nat, acc: i64, dot: bool, scale: nat)
    requires
        i <= s.len(),
    ensures
        i <= scan_number(s, i, acc, dot, scale).2 <= s.len(),
        scan_number(s, i, acc, dot, scale).1 >= scale,
        scan_number(s, i, acc, dot, scale).1 <= scale + (scan_number(s, i, acc, dot, scale).2 - i),
    decreases s.len() - i,
{
    if i < s.len() && is_digit(s[i as int]) {
        lemma_scan_number(s, i + 1, push_digit(acc, s[i as int]), dot, if dot {
            scale + 1
        } else {
            scale
        });
    } else if i < s.len() && s[i as int] == 0x2e && !dot {
        lemma_scan_number(s, i + 1, acc, true, scale);
    }
}

/// A lexed token lies within the source, after the offset lexing started from.
pub proof fn lemma_lex_bounds(s: Seq<u8>, i: nat)
    requires
        i <= s.len(),
        s.len() <= usize::MAX,
    ensures
        match lex_spec(s, i) {
            Some((t, end)) => i <= t.pos.start < t.pos.end == end <= s.len(),
            None => skip_spaces(s, i) == s.len(),
        },
{
    lemma_skip_spaces(s, i);
    let start = skip_spaces(s, i);
    if start < s.len() {
        let c = s[start as int];
        if is_digit(c) {
            lemma_scan_number(s, start + 1, (c - 0x30) as i64, false, 0);
        }
    }
}

fn is_whitespace(c: u8) -> (r: bool)
    ensures
        r == is_space(c),
{
    c == 0x20 || c == 0x09 || c == 0x0d || c == 0x0a
}

fn skip_whitespaces<R: Reader>(reader: &mut R)
    requires
        reader_ok(*old(reader)),
    ensures
        reader_ok(*final(reader)),
        final(reader).source() == old(reader).source(),
        final(reader).position() == skip_spaces(old(reader).source(), old(reader).position()),
{
    let ghost s = reader.source();
    let ghost target = skip_spaces(s, reader.position());
    loop
        invariant
            reader_ok(*reader),
            reader.source() == s,
            skip_spaces(s, reader.position()) == target,
        ensures
            reader.position() == target,
        decreases s.len() - reader.position(),
    {
        match reader.current() {
            Some(c) => {
                if is_whitespace(c) {
                    reader.advance();
                } else {
                    break;
                }
            },
            None => break,
        }
    }
}

fn lex_double<R: Reader>(reader: &mut R, c0: u8, c1: u8) -> (r: Token)
    requires
        reader_ok(*old(reader)),
        old(reader).position() < old(reader).source().len(),
    ensures
        r == Token::Double(c0, c1),
        final(reader).source() == old(reader).source(),
        final(reader).position() == old(reader).position() + 1,
{
    reader.advance();
    Token::Double(c0, c1)
}

/// Lexes `=` or `==`; `c0` was just consumed.
fn lex_equal<R: Reader>(reader: &mut R, c0: u8) -> (r: Token)
    requires
        reader_ok(*old(reader)),
        c0 == 0x3d,
    ensures
        reader_ok(*final(reader)),
        final(reader).source() == old(reader).source(),
        (r, final(reader).position()) == token_spec(
            old(reader).source(),
            old(reader).position(),
            c0,
        ),
{
    if let Some(c1) = reader.current() {
        match c1 {
            0x3d => lex_double(reader, c0, c1),
            _ => Token::Single(c0),
        }
    } else {
        Token::Single(c0)
    }
}

/// Lexes `!` or `!=`; `c0` was just consumed.
fn lex_exclamation<R: Reader>(reader: &mut R, c0: u8) -> (r: Token)
    requires
        reader_ok(*old(reader)),
        c0 == 0x21,
    ensures
        reader_ok(*final(reader)),
        final(reader).source() == old(reader).source(),
        (r, final(reader).position()) == token_spec(
            old(reader).source(),
            old(reader).position(),
            c0,
        ),
{
    if let Some(c1) = reader.current() {
        match c1 {
            0x3d => lex_double(reader, c0, c1),
            _ => Token::Single(c0),
        }
    } else {
        Token::Single(c0)
    }
}

/// Lexes `<` or `<=`; `c0` was just consumed.
fn lex_less<R: Reader>(reader: &mut R, c0: u8) -> (r: Token)
    requires
        reader_ok(*old(reader)),
        c0 == 0x3c,
    ensures
        reader_ok(*final(reader)),
        final(reader).source() == old(reader).source(),
        (r, final(reader).position()) == token_spec(
            old(reader).source(),
            old(reader).position(),
            c0,
        ),
{
    if let Some(c1) = reader.current() {
        match c1 {
            0x3d => lex_double(reader, c0, c1),
            _ => Token::Single(c0),
        }
    } else {
        Token::Single(c0)
    }
}

/// Lexes `>` or `>=`; `c0` was just consumed.
fn lex_greater<R: Reader>(reader: &mut R, c0: u8) -> (r: Token)
    requires
        reader_ok(*old(reader)),
        c0 == 0x3e,
    ensures
        reader_ok(*final(reader)),
        final(reader).source() == old(reader).source(),
        (r, final(reader).position()) == token_spec(
            old(reader).source(),
            old(reader).position(),
            c0,
        ),
{
    if let Some(c1) = reader.current() {
        match c1 {
            0x3d => lex_double(reader, c0, c1),
            _ => Token::Single(c0),
        }
    } else {
        Token::Single(c0)
    }
}

/// Lexes a number whose first digit `c` was just consumed.
fn lex_number<R: Reader>(reader: &mut R, c: u8) -> (r: Token)
    requires
        reader_ok(*old(reader)),
        is_digit(c),
    ensures
        reader_ok(*final(reader)),
        final(reader).source() == old(reader).source(),
        (r, final(reader).position()) == number_spec(
            old(reader).source(),
            old(reader).position(),
            c,
        ),
{
    let ghost s = reader.source();
    let ghost i0 = reader.position();
    let ghost target = scan_number(s, i0, (c - 0x30) as i64, false, 0);
    let mut result: i64 = (c - 0x30) as i64;
    let mut dot: bool = false;
    let mut scale: usize = 0;
    proof {
        lemma_scan_number(s, i0, result, dot, 0);
    }
    loop
        invariant
            reader_ok(*reader),
            reader.source() == s,
            i0 <= reader.position(),
            scale <= reader.position() - i0,
            scan_number(s, reader.position(), result, dot, scale as nat) == target,
        ensures
            (result, scale as nat, reader.position()) == target,
        decreases s.len() - reader.position(),
    {
        let c = match reader.current() {
            Some(c) => c,
            None => break,
        };
        if 0x30 <= c && c <= 0x39 {
            result = result.wrapping_mul(10).wrapping_add((c - 0x30) as i64);
            reader.advance();
            if dot {
                scale = scale + 1;
            }
        } else if c == 0x2e {
            if !dot {
                dot = true;
                reader.advance();
            } else {
                break;
            }
        } else {
            break;
        }
    }
    if scale == 0 {
        Token::Integer(result)
    } else {
        Token::Real(RealLiteral { digits: result, scale })
    }
}

fn lex_token<R: Reader>(reader: &mut R) -> (r: Option<Token>)
    requires
        reader_ok(*old(reader)),
    ensures
        reader_ok(*final(reader)),
        final(reader).source() == old(reader).source(),
        old(reader).position() < old(reader).source().len() ==> r.is_some() && (
        r.unwrap(),
        final(reader).position(),
        ) == token_spec(
            old(reader).source(),
            old(reader).position() + 1,
            old(reader).source()[old(reader).position() as int],
        ),
        old(reader).position() >= old(reader).source().len() ==> r.is_none() && final(reader).position()
            == old(reader).position(),
{
    let c = reader.current()?;
    reader.advance();
    Some(
        match c {
            0x30..=0x39 => lex_number(reader, c),
            0x3d => lex_equal(reader, c),
            0x21 => lex_exclamation(reader, c),
            0x3c => lex_less(reader, c),
            0x3e => lex_greater(reader, c),
            _ => Token::Single(c),
        },
    )
}

/// Lexes the next token, skipping the whitespace before it.
pub fn lex<R: Reader>(reader: &mut R) -> (r: Option<TokenAndPos>)
    requires
        reader_ok(*old(reader)),
    ensures
        reader_ok(*final(reader)),
        final(reader).source() == old(reader).source(),
        match lex_spec(old(reader).source(), old(reader).position()) {
            Some((t, end)) => r == Some(t) && final(reader).position() == end,
            None => r.is_none() && final(reader).position() == skip_spaces(
                old(reader).source(),
                old(reader).position(),
            ),
        },
{
    skip_whitespaces(reader);
    let start = reader.offset();
    let token = lex_token(reader)?;
    let end = reader.offset();
    Some(TokenAndPos { token, pos: Pos { start, end } })
}

} // verus!
