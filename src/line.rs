use vstd::prelude::*;

use crate::lexer::{reader_ok, Reader};

verus! {

/// Where a line starts, and its 1-based number.
#[derive(Clone, Copy, Debug, PartialEq, Eq, Structural)]
pub struct LineInfo {
    pub start: usize,
    pub number: usize,
}

/// How many line feeds the first `n` bytes of `s` hold.
pub open spec fn newlines(s: Seq<u8>, n: nat) -> nat
    decreases n,
{
    if n == 0 {
        0
    } else {
        newlines(s, (n - 1) as nat) + if s[n - 1] == 0x0a {
            1nat
        } else {
            0nat
        }
    }
}

/// The offset just after the last line feed among the first `n` bytes of `s`, or 0.
pub open spec fn line_start(s: Seq<u8>, n: nat) -> nat
    decreases n,
{
    if n == 0 {
        0
    } else if s[n - 1] == 0x0a {
        n
    } else {
        line_start(s, (n - 1) as nat)
    }
}

/// The first offset at or after `i` that holds a line break, or the length of `s`.
pub open spec fn line_end(s: Seq<u8>, i: nat) -> nat
    decreases s.len() - i,
{
    if i < s.len() && s[i as int] != 0x0a && s[i as int] != 0x0d {
        line_end(s, i + 1)
    } else {
        i
    }
}

pub open spec fn min(a: nat, b: nat) -> nat {
    if a <= b {
        a
    } else {
        b
    }
}

proof fn lemma_newlines_bound(s: Seq<u8>, n: nat)
    ensures
        newlines(s, n) <= n,
        line_start(s, n) <= n,
    decreases n,
{
    if n > 0 {
        lemma_newlines_bound(s, (n - 1) as nat);
    }
}

/// The line that the source offset `start` stands on, read from a fresh reader.
pub fn create<R: Reader>(mut reader: R, start: usize) -> (r: LineInfo)
    requires
        reader_ok(reader),
        reader.position() == 0,
        reader.source().len() < usize::MAX,
    ensures
        r.number == 1 + newlines(reader.source(), min(start as nat, reader.source().len())),
        r.start == line_start(reader.source(), min(start as nat, reader.source().len())),
{
    let ghost s = reader.source();
    let mut line_number: usize = 1;
    let mut line_start_at: usize = 0;
    loop
        invariant
            reader_ok(reader),
            reader.source() == s,
            reader.position() <= start,
            s.len() < usize::MAX,
            line_number == 1 + newlines(s, reader.position()),
            line_start_at == line_start(s, reader.position()),
        ensures
            reader.position() == min(start as nat, s.len()),
            line_number == 1 + newlines(s, reader.position()),
            line_start_at == line_start(s, reader.position()),
        decreases s.len() - reader.position(),
    {
        let c = match reader.current() {
            Some(c) => c,
            None => break,
        };
        if reader.offset() == start {
            break;
        }
        proof {
            lemma_newlines_bound(s, reader.position());
        }
        reader.advance();
        if c == 0x0a {
            line_number = line_number + 1;
            line_start_at = reader.offset();
        }
    }
    LineInfo { start: line_start_at, number: line_number }
}

/// The bytes of the line that starts at `start`, without its line break.
pub fn line_bytes<R: Reader>(mut reader: R, start: usize) -> (r: Vec<u8>)
    requires
        reader_ok(reader),
        reader.position() == 0,
    ensures
        r@ == reader.source().subrange(
            min(start as nat, reader.source().len()) as int,
            line_end(reader.source(), min(start as nat, reader.source().len())) as int,
        ),
{
    let ghost s = reader.source();
    loop
        invariant
            reader_ok(reader),
            reader.source() == s,
            reader.position() <= start,
        ensures
            reader.position() == min(start as nat, s.len()),
        decreases s.len() - reader.position(),
    {
        if reader.current().is_none() || reader.offset() >= start {
            break;
        }
        reader.advance();
    }
    let ghost from = reader.position();
    let ghost end = line_end(s, from);
    let mut line: Vec<u8> = Vec::new();
    loop
        invariant
            reader_ok(reader),
            reader.source() == s,
            from <= reader.position(),
            line_end(s, reader.position()) == end,
            line@ == s.subrange(from as int, reader.position() as int),
        ensures
            reader.position() == end,
            line@ == s.subrange(from as int, reader.position() as int),
        decreases s.len() - reader.position(),
    {
        let c = match reader.current() {
            Some(c) => c,
            None => break,
        };
        if c == 0x0a || c == 0x0d {
            break;
        }
        line.push(c);
        reader.advance();
        assert(line@ =~= s.subrange(from as int, reader.position() as int));
    }
    line
}

} // verus!
