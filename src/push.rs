use vstd::prelude::*;

use crate::get::{be_bytes, GetByte};

verus! {

/// An append-only byte sink.
pub trait PushByte {
    /// Everything appended so far.
    spec fn pushed(&self) -> Seq<u8>;

    fn push_byte(&mut self, value: u8)
        ensures
            final(self).pushed() == old(self).pushed().push(value),
    ;
}

/// A sink that can be frozen into a readable program.
pub trait IntoGetByte: PushByte + Sized {
    type Target: GetByte;

    fn into_get_byte(self) -> (r: Self::Target)
        ensures
            r.bytes() == self.pushed(),
    ;
}

/// Appends an 8-byte big-endian operand.
pub trait PushData: PushByte {
    fn push_data(&mut self, value: u64)
        ensures
            final(self).pushed() == old(self).pushed() + be_bytes(value),
    ;
}

impl<P: PushByte> PushData for P {
    fn push_data(&mut self, value: u64) {
        let ghost start = self.pushed();
        let mut k: u32 = 0;
        while k < 8
            invariant
                k <= 8,
                self.pushed() == start + be_bytes(value).take(k as int),
            decreases 8 - k,
        {
            self.push_byte((value >> (56 - 8 * k)) as u8);
            proof {
                assert(be_bytes(value).take(k + 1) =~= be_bytes(value).take(k as int).push(
                    (value >> (56 - 8 * k) as u64) as u8,
                ));
            }
            k = k + 1;
        }
        assert(be_bytes(value).take(8) =~= be_bytes(value));
    }
}

} // verus!
