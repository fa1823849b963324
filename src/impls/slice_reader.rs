use vstd::prelude::*;

use crate::lexer::{reader_ok, Reader};

verus! {

/// A reader over a byte slice.
pub struct SliceReader<'a> {
    slice: &'a [u8],
    offset: usize,
}

impl<'a> SliceReader<'a> {
    pub fn new(slice: &'a [u8]) -> (r: Self)
        ensures
            r.source() == slice@,
            r.position() == 0,
            reader_ok(r),
    {
        assert(slice@.len() == slice.len());
        Self { slice, offset: 0 }
    }
}

impl<'a> Reader for SliceReader<'a> {
    closed spec fn source(&self) -> Seq<u8> {
        self.slice@
    }

    closed spec fn position(&self) -> nat {
        self.offset as nat
    }

    fn current(&mut self) -> (r: Option<u8>) {
        if self.offset < self.slice.len() {
            Some(self.slice[self.offset])
        } else {
            None
        }
    }

    fn advance(&mut self) {
        if self.offset < self.slice.len() {
            self.offset = self.offset + 1;
        }
    }

    fn offset(&self) -> (r: usize) {
        self.offset
    }
}

/// A reader at the start of `slice`.
pub fn new(slice: &[u8]) -> (r: SliceReader<'_>)
    ensures
        r.source() == slice@,
        r.position() == 0,
        reader_ok(r),
{
    SliceReader::new(slice)
}

} // verus!
