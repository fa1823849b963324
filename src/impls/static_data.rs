use vstd::prelude::*;

use crate::impls::data_stack::Data;
use crate::value::Value;

verus! {

/// A fixed number of value slots.
pub struct StaticData(Vec<Value>);

impl StaticData {
    /// `size` slots, each holding `Value::Void`.
    pub fn new(size: usize) -> (r: Self)
        ensures
            r.slots() == Seq::new(size as nat, |i: int| Value::Void),
    {
        let mut slots: Vec<Value> = Vec::new();
        while slots.len() < size
            invariant
                slots.len() <= size,
                slots@ == Seq::new(slots.len() as nat, |i: int| Value::Void),
            decreases size - slots.len(),
        {
            slots.push(Value::Void);
            assert(slots@ =~= Seq::new(slots.len() as nat, |i: int| Value::Void));
        }
        Self(slots)
    }
}

impl Data for StaticData {
    closed spec fn slots(&self) -> Seq<Value> {
        self.0@
    }

    fn get(&self, index: usize) -> (r: Option<Value>) {
        if index < self.0.len() {
            Some(self.0[index])
        } else {
            None
        }
    }

    fn set(&mut self, index: usize, value: Value) -> (r: bool) {
        if index < self.0.len() {
            self.0.set(index, value);
            true
        } else {
            false
        }
    }

    fn len(&self) -> (r: usize) {
        self.0.len()
    }
}

/// `size` slots, each holding `Value::Void`.
pub fn new(size: usize) -> (r: StaticData)
    ensures
        r.slots() == Seq::new(size as nat, |i: int| Value::Void),
{
    StaticData::new(size)
}

} // verus!
