use vstd::prelude::*;

use crate::impls::boxed_get::BoxedGet;
use crate::push::{IntoGetByte, PushByte};

verus! {

/// A growable byte buffer that programs are compiled into.
pub struct VecPush(Vec<u8>);

impl VecPush {
    pub fn new() -> (r: Self)
        ensures
            r.pushed() == Seq::<u8>::empty(),
    {
        Self(Vec::new())
    }
}

impl PushByte for VecPush {
    closed spec fn pushed(&self) -> Seq<u8> {
        self.0@
    }

    fn push_byte(&mut self, value: u8) {
        self.0.push(value)
    }
}

impl IntoGetByte for VecPush {
    type Target = BoxedGet;

    fn into_get_byte(self) -> (r: BoxedGet) {
        BoxedGet::new(self.0)
    }
}

/// An empty buffer.
pub fn new() -> (r: VecPush)
    ensures
        r.pushed() == Seq::<u8>::empty(),
{
    VecPush::new()
}

} // verus!
