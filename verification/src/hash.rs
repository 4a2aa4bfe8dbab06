//! The hasher for maps keyed on a file offset.
//!
//! The keys come from where a token happens to start in a file, so nobody
//! chooses them to collide, and a keyed hash would cost more than the lookup
//! it guards. The mixing step is a rotate, an xor of the word, and a multiply
//! by a constant with its bits spread out.

use vstd::prelude::*;

verus! {

pub const MULTIPLIER: u64 = 0x517c_c1b7_2722_0a95u64;

/// The state rotated left by five bits.
pub open spec fn rotated(h: u64) -> u64 {
    (h << 5u32) | (h >> 59u32)
}

/// The state once one word is mixed in.
pub open spec fn mixed(h: u64, word: u64) -> u64 {
    vstd::wrapping::u64_specs::wrapping_mul(rotated(h) ^ word, MULTIPLIER)
}

/// The state once each byte, in order, is mixed in as a word of its own.
pub open spec fn mixed_bytes(h: u64, bytes: Seq<u8>) -> u64
    decreases bytes.len(),
{
    if bytes.len() == 0 {
        h
    } else {
        mixed(mixed_bytes(h, bytes.drop_last()), bytes.last() as u64)
    }
}

/// A hasher for offsets: one word of state, mixed word by word.
pub struct OffsetHasher {
    hash: u64,
}

impl OffsetHasher {
    /// The state so far.
    pub closed spec fn state(&self) -> u64 {
        self.hash
    }

    /// A hasher that has seen nothing.
    pub fn new() -> (h: OffsetHasher)
        ensures
            h.state() == 0,
    {
        OffsetHasher { hash: 0 }
    }

    fn mix(&mut self, word: u64)
        ensures
            final(self).state() == mixed(old(self).state(), word),
    {
        let h = self.hash;
        self.hash = (((h << 5u32) | (h >> 59u32)) ^ word).wrapping_mul(MULTIPLIER);
    }

    /// Mix in each byte, in order.
    pub fn write(&mut self, bytes: &[u8])
        ensures
            final(self).state() == mixed_bytes(old(self).state(), bytes@),
    {
        let ghost start = self.hash;
        let mut i: usize = 0;
        assert(bytes@.subrange(0, 0) =~= Seq::<u8>::empty());
        while i < bytes.len()
            invariant
                i <= bytes@.len(),
                start == old(self).state(),
                self.hash == mixed_bytes(start, bytes@.subrange(0, i as int)),
            decreases bytes@.len() - i,
        {
            proof {
                assert(bytes@.subrange(0, i + 1).drop_last() =~= bytes@.subrange(0, i as int));
                assert(bytes@.subrange(0, i + 1).last() == bytes@[i as int]);
            }
            self.mix(bytes[i] as u64);
            i += 1;
        }
        assert(bytes@.subrange(0, bytes@.len() as int) =~= bytes@);
    }

    /// Mix in an offset.
    pub fn write_u32(&mut self, value: u32)
        ensures
            final(self).state() == mixed(old(self).state(), value as u64),
    {
        self.mix(value as u64);
    }

    pub fn write_u64(&mut self, value: u64)
        ensures
            final(self).state() == mixed(old(self).state(), value),
    {
        self.mix(value);
    }

    pub fn write_usize(&mut self, value: usize)
        ensures
            final(self).state() == mixed(old(self).state(), value as u64),
    {
        self.mix(value as u64);
    }

    /// The hash of what was written.
    pub fn finish(&self) -> (r: u64)
        ensures
            r == self.state(),
    {
        self.hash
    }
}

impl Default for OffsetHasher {
    fn default() -> (h: OffsetHasher)
        ensures
            h.state() == 0,
    {
        OffsetHasher::new()
    }
}

} // verus!
