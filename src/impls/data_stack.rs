use vstd::prelude::*;

use crate::state::{Stack, VMError, VMResult};
use crate::value::Value;

verus! {

/// Storage for the slots of a stack.
pub trait Data {
    spec fn slots(&self) -> Seq<Value>;

    fn get(&self, index: usize) -> (r: Option<Value>)
        ensures
            r == (if index < self.slots().len() {
                Some(self.slots()[index as int])
            } else {
                None::<Value>
            }),
    ;

    fn set(&mut self, index: usize, value: Value) -> (r: bool)
        ensures
            r == (index < old(self).slots().len()),
            final(self).slots() == (if r {
                old(self).slots().update(index as int, value)
            } else {
                old(self).slots()
            }),
    ;

    fn len(&self) -> (r: usize)
        ensures
            r == self.slots().len(),
    ;
}

/// A stack kept in the first `top` slots of `data`.
pub struct DataStack<D> {
    data: D,
    top: usize,
}

impl<D: Data> DataStack<D> {
    pub fn new(data: D) -> (r: Self)
        ensures
            r.valid(),
            r.values() == Seq::<Value>::empty(),
            r.capacity() == data.slots().len(),
    {
        Self { data, top: 0 }
    }
}

impl<D: Data> Stack for DataStack<D> {
    closed spec fn values(&self) -> Seq<Value> {
        self.data.slots().take(self.top as int)
    }

    closed spec fn capacity(&self) -> nat {
        self.data.slots().len()
    }

    closed spec fn valid(&self) -> bool {
        self.top <= self.data.slots().len()
    }

    fn push(&mut self, value: Value) -> (r: VMResult<()>) {
        if self.top < self.data.len() {
            self.data.set(self.top, value);
            self.top = self.top + 1;
            assert(self.data.slots().take(self.top as int) =~= old(self).data.slots().take(
                old(self).top as int,
            ).push(value));
            Ok(())
        } else {
            Err(VMError::StackOverflow)
        }
    }

    fn pop(&mut self) -> (r: VMResult<Value>) {
        if self.top == 0 {
            Err(VMError::StackUnderflow)
        } else {
            self.top = self.top - 1;
            assert(self.data.slots().take(self.top as int) =~= old(self).data.slots().take(
                old(self).top as int,
            ).drop_last());
            match self.data.get(self.top) {
                Some(v) => Ok(v),
                None => Err(VMError::StackOverflow),
            }
        }
    }
}

/// An empty stack over `data`.
pub fn new<D: Data>(data: D) -> (r: DataStack<D>)
    ensures
        r.valid(),
        r.values() == Seq::<Value>::empty(),
        r.capacity() == data.slots().len(),
{
    DataStack::new(data)
}

} // verus!
