use vstd::prelude::*;

use crate::lexer::byte_at;

verus! {

/// Random-access, read-only bytes.
pub trait GetByte {
    /// The bytes that can be read.
    spec fn bytes(&self) -> Seq<u8>;

    fn get_byte(&self, address: usize) -> (r: Option<u8>)
        ensures
            r == byte_at(self.bytes(), address as nat),
    ;
}

/// The big-endian bytes of a 64-bit word.
pub open spec fn be_bytes(v: u64) -> Seq<u8> {
    Seq::new(8, |k: int| (v >> (56 - 8 * k) as u64) as u8)
}

/// The word that the `k` bytes of `b` from offset `a` spell, most significant first.
pub open spec fn be_at(b: Seq<u8>, a: nat, k: nat) -> u64
    decreases k,
{
    if k == 0 {
        0
    } else {
        (be_at(b, a, (k - 1) as nat) << 8u64) | (b[a + k - 1] as u64)
    }
}

/// The 8-byte big-endian word at `address`, if all of it is there.
pub open spec fn data_at(s: Seq<u8>, address: nat) -> Option<u64> {
    if address + 8 <= s.len() {
        Some(be_at(s, address, 8))
    } else {
        None
    }
}

/// Reads an 8-byte big-endian operand.
pub trait GetData: GetByte {
    fn get_data(&self, address: usize) -> (r: Option<u64>)
        requires
            self.bytes().len() <= usize::MAX,
        ensures
            r == data_at(self.bytes(), address as nat),
    ;
}

impl<G: GetByte> GetData for G {
    fn get_data(&self, address: usize) -> (r: Option<u64>) {
        let ghost s = self.bytes();
        if address > usize::MAX - 8 {
            return None;
        }
        let mut value: u64 = 0;
        let mut k: usize = 0;
        while k < 8
            invariant
                k <= 8,
                address + 8 <= usize::MAX,
                self.bytes() == s,
                k > 0 ==> address + k <= s.len(),
                value == be_at(s, address as nat, k as nat),
            decreases 8 - k,
        {
            match self.get_byte(address + k) {
                Some(b) => {
                    value = (value << 8u64) | (b as u64);
                },
                None => {
                    return None;
                },
            }
            k = k + 1;
        }
        Some(value)
    }
}

/// Decoding an encoded word gives the word back.
pub proof fn lemma_be_round_trip(v: u64)
    ensures
        be_at(be_bytes(v), 0, 8) == v,
{
    reveal_with_fuel(be_at, 9);
    let b = be_bytes(v);
    assert(b[0] == (v >> 56u64) as u8);
    assert(b[1] == (v >> 48u64) as u8);
    assert(b[2] == (v >> 40u64) as u8);
    assert(b[3] == (v >> 32u64) as u8);
    assert(b[4] == (v >> 24u64) as u8);
    assert(b[5] == (v >> 16u64) as u8);
    assert(b[6] == (v >> 8u64) as u8);
    assert(b[7] == (v >> 0u64) as u8);
    assert(((((((((((((((((0u64 << 8u64) | ((v >> 56u64) as u8 as u64)) << 8u64) | ((v >> 48u64)
        as u8 as u64)) << 8u64) | ((v >> 40u64) as u8 as u64)) << 8u64) | ((v >> 32u64) as u8
        as u64)) << 8u64) | ((v >> 24u64) as u8 as u64)) << 8u64) | ((v >> 16u64) as u8 as u64))
        << 8u64) | ((v >> 8u64) as u8 as u64)) << 8u64) | ((v >> 0u64) as u8 as u64)) == v)
        by (bit_vector);
}

} // verus!
