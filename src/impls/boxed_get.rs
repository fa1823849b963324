use vstd::prelude::*;

use crate::get::GetByte;

verus! {

/// A frozen program: bytes that can only be read.
pub struct BoxedGet(Vec<u8>);

impl BoxedGet {
    pub fn new(bytes: Vec<u8>) -> (r: Self)
        ensures
            r.bytes() == bytes@,
    {
        Self(bytes)
    }

    /// How many bytes the program holds.
    pub fn len(&self) -> (r: usize)
        ensures
            r == self.bytes().len(),
    {
        self.0.len()
    }
}

impl GetByte for BoxedGet {
    closed spec fn bytes(&self) -> Seq<u8> {
        self.0@
    }

    fn get_byte(&self, address: usize) -> (r: Option<u8>) {
        if address < self.0.len() {
            Some(self.0[address])
        } else {
            None
        }
    }
}

} // verus!
