use vstd::prelude::*;

use crate::compiler::{after_first, first_of, Stream};
use crate::lexer::{lemma_lex_bounds, lex, reader_ok, tokens_from, Reader};
use crate::token::TokenAndPos;

verus! {

/// The tokens of a reader, lexed one at a time.
pub struct TokenIterator<R>(R);

impl<R: Reader> TokenIterator<R> {
    pub closed spec fn remaining(&self) -> Seq<TokenAndPos> {
        tokens_from(self.0.source(), self.0.position())
    }

    pub closed spec fn valid(&self) -> bool {
        reader_ok(self.0)
    }

    pub fn new(reader: R) -> (r: Self)
        requires
            reader_ok(reader),
        ensures
            r.valid(),
            r.remaining() == tokens_from(reader.source(), reader.position()),
    {
        Self(reader)
    }

    pub fn next(&mut self) -> (r: Option<TokenAndPos>)
        requires
            old(self).valid(),
        ensures
            final(self).valid(),
            r == first_of(old(self).remaining()),
            final(self).remaining() == after_first(old(self).remaining()),
    {
        let ghost s = self.0.source();
        let ghost p = self.0.position();
        proof {
            lemma_lex_bounds(s, p);
        }
        let r = lex(&mut self.0);
        proof {
            if let Some(t) = r {
                assert(tokens_from(s, p) == seq![t] + tokens_from(s, self.0.position()));
                assert((seq![t] + self.remaining()).drop_first() =~= self.remaining());
            } else {
                assert(tokens_from(s, p) == Seq::<TokenAndPos>::empty());
                assert(self.remaining() == Seq::<TokenAndPos>::empty());
            }
        }
        r
    }
}

/// A token stream with one token of look-ahead.
pub struct TokenStream<R> {
    tokens: TokenIterator<R>,
    peeked: Option<TokenAndPos>,
}

impl<R: Reader> TokenStream<R> {
    pub fn new(tokens: TokenIterator<R>) -> (r: Self)
        requires
            tokens.valid(),
        ensures
            r.valid(),
            r.rest() == tokens.remaining(),
    {
        Self { tokens, peeked: None }
    }
}

impl<R: Reader> Stream for TokenStream<R> {
    closed spec fn rest(&self) -> Seq<TokenAndPos> {
        match self.peeked {
            Some(t) => seq![t] + self.tokens.remaining(),
            None => self.tokens.remaining(),
        }
    }

    closed spec fn valid(&self) -> bool {
        self.tokens.valid()
    }

    fn peek(&mut self) -> (r: Option<TokenAndPos>) {
        match self.peeked {
            Some(t) => Some(t),
            None => {
                let ghost before = self.tokens.remaining();
                let r = self.tokens.next();
                self.peeked = r;
                proof {
                    if let Some(t) = r {
                        assert(seq![t] + self.tokens.remaining() =~= before);
                    }
                }
                r
            },
        }
    }

    fn next(&mut self) -> (r: Option<TokenAndPos>) {
        match self.peeked {
            Some(t) => {
                self.peeked = None;
                assert((seq![t] + self.tokens.remaining()).drop_first() =~= self.tokens.remaining());
                Some(t)
            },
            None => self.tokens.next(),
        }
    }
}

/// The token stream of a reader.
pub fn new<R: Reader>(reader: R) -> (r: TokenStream<R>)
    requires
        reader_ok(reader),
    ensures
        r.valid(),
        r.rest() == tokens_from(reader.source(), reader.position()),
{
    TokenStream::new(TokenIterator::new(reader))
}

} // verus!
