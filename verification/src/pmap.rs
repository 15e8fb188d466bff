//! The presence-map register.
//!
//! A presence map is a bit string attached to each segment of the transfer
//! encoding.  The register keeps the bits in the low end of a 64-bit
//! accumulator together with the size in bits (always a multiple of 7) and a
//! one-bit cursor mask.  The decoder reads bits MSB-first through
//! [`PresenceMap::next_bit_set`]; the encoder appends bits through
//! [`PresenceMap::set_next_bit`], extending the register by 7 bits whenever
//! the cursor runs off its low end.
use vstd::prelude::*;

verus! {

pub struct PresenceMap {
    pub bitmap: u64,
    pub mask: u64,
    pub size: u32,
}

impl PresenceMap {
    /// The bit the cursor addresses, if the cursor is still inside the register.
    pub open spec fn spec_current_bit(&self) -> bool {
        self.bitmap & self.mask != 0
    }

    /// A fresh register for the encoder: 7 bits, all zero, cursor on the
    /// most significant of them.
    pub fn new_empty() -> (r: Self)
        ensures
            r.bitmap == 0,
            r.mask == 0x40u64,
            r.size == 7,
    {
        Self { bitmap: 0, mask: 0x40, size: 7 }
    }

    /// A register holding `size` decoded bits; the cursor starts at the most
    /// significant one.
    pub fn new(bitmap: u64, size: u32) -> (r: Self)
        requires
            1 <= size <= 64,
        ensures
            r.bitmap == bitmap,
            r.mask == 1u64 << (size - 1) as u64,
            r.size == size,
    {
        Self { bitmap, mask: 1u64 << ((size - 1) as u64), size }
    }

    /// Read the bit under the cursor and move the cursor one position toward
    /// the low end.  Once the cursor has left the register every further read
    /// yields `false`.
    pub fn next_bit_set(&mut self) -> (r: bool)
        ensures
            r == old(self).spec_current_bit(),
            final(self).mask == old(self).mask >> 1u64,
            final(self).bitmap == old(self).bitmap,
            final(self).size == old(self).size,
    {
        let res = self.bitmap & self.mask != 0;
        self.mask = self.mask >> 1u64;
        res
    }

    /// Append one bit at the cursor.  When the cursor has run off the low
    /// end, the register first grows by 7 bits (the accumulator shifts left,
    /// dropping any bits beyond 64).
    pub fn set_next_bit(&mut self, value: bool)
        requires
            old(self).size <= 0xffff_fff8u32,
        ensures
            old(self).mask != 0 ==> {
                &&& final(self).size == old(self).size
                &&& final(self).mask == old(self).mask >> 1u64
                &&& final(self).bitmap == if value {
                    old(self).bitmap | old(self).mask
                } else {
                    old(self).bitmap
                }
            },
            old(self).mask == 0 ==> {
                &&& final(self).size == old(self).size + 7
                &&& final(self).mask == 0x20u64
                &&& final(self).bitmap == if value {
                    (old(self).bitmap << 7u64) | 0x40u64
                } else {
                    old(self).bitmap << 7u64
                }
            },
    {
        if self.mask == 0 {
            self.bitmap = self.bitmap << 7u64;
            self.mask = 0x40;
            self.size = self.size + 7;
        }
        if value {
            self.bitmap = self.bitmap | self.mask;
        }
        proof {
            if old(self).mask == 0 {
                assert((0x40u64 >> 1u64) == 0x20u64) by (bit_vector);
            }
        }
        self.mask = self.mask >> 1u64;
    }
}

} // verus!
