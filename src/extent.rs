//! Packing of a record's location in a data log into one 64-bit word.
use vstd::prelude::*;

verus! {

/// Offsets are stored in the low 48 bits of a packed extent.
pub const OFFSET_LIMIT: u64 = 0x1_0000_0000_0000;

/// Mask selecting the 48 offset bits of a packed extent.
pub const EXTENT_OFFSET_MASK: u64 = 0xffff_ffff_ffff;

/// Mask selecting the 16 size bits of a packed extent.
pub const EXTENT_SIZE_MASK: u64 = 0xffff_0000_0000_0000;

/// The word that packs `size` into the high 16 bits and the low 48 bits of
/// `offset` into the rest.
pub open spec fn packed(offset: u64, size: u16) -> int {
    size as int * OFFSET_LIMIT as int + offset as int % OFFSET_LIMIT as int
}

/// Location of one record in a data log: `size` bytes starting at `offset`.
#[derive(Clone, Copy, Debug, PartialEq, Eq, Structural)]
pub struct FrameExtent {
    pub size: u16,
    pub offset: u64,
}

impl FrameExtent {
    /// Packs the extent; an offset of 2^48 or more loses its high bits.
    pub fn pack(&self) -> (r: u64)
        ensures
            r as int == packed(self.offset, self.size),
    {
        let size = self.size;
        let offset = self.offset;
        let r = ((size as u64) << 48u64) ^ (offset & EXTENT_OFFSET_MASK);
        assert(r == (size as u64) * 0x1_0000_0000_0000u64 + offset % 0x1_0000_0000_0000u64
            && (size as u64) * 0x1_0000_0000_0000u64 + offset % 0x1_0000_0000_0000u64
            <= 0xffff_ffff_ffff_ffffu64) by (bit_vector)
            requires
                r == ((size as u64) << 48u64) ^ (offset & 0xffff_ffff_ffffu64),
        ;
        r
    }

    /// Splits a packed word back into its size and offset.
    pub fn unpack(value: u64) -> (r: Self)
        ensures
            r.size as int == value as int / OFFSET_LIMIT as int,
            r.offset as int == value as int % OFFSET_LIMIT as int,
    {
        let size = ((value & EXTENT_SIZE_MASK) >> 48u64) as u16;
        let offset = value & EXTENT_OFFSET_MASK;
        assert(size as u64 == value / 0x1_0000_0000_0000u64
            && offset == value % 0x1_0000_0000_0000u64) by (bit_vector)
            requires
                size == ((value & 0xffff_0000_0000_0000u64) >> 48u64) as u16,
                offset == value & 0xffff_ffff_ffffu64,
        ;
        FrameExtent { size, offset }
    }
}

/// Unpacking a packed extent gives back its offset and size, for every
/// offset below 2^48 and every size that fits in 16 bits.
pub proof fn lemma_pack_unpack(offset: u64, size: u16)
    requires
        offset < OFFSET_LIMIT,
    ensures
        0 <= packed(offset, size) < 0x1_0000_0000_0000_0000,
        packed(offset, size) / OFFSET_LIMIT as int == size as int,
        packed(offset, size) % OFFSET_LIMIT as int == offset as int,
{
    assert(packed(offset, size) == size as int * 0x1_0000_0000_0000 + offset as int);
    assert((size as int * 0x1_0000_0000_0000 + offset as int) / 0x1_0000_0000_0000 == size as int)
        by (nonlinear_arith)
        requires
            0 <= offset < 0x1_0000_0000_0000,
    ;
    assert((size as int * 0x1_0000_0000_0000 + offset as int) % 0x1_0000_0000_0000 == offset as int)
        by (nonlinear_arith)
        requires
            0 <= offset < 0x1_0000_0000_0000,
    ;
    assert(size as int * 0x1_0000_0000_0000 <= 0xffff * 0x1_0000_0000_0000) by (nonlinear_arith)
        requires
            size <= 0xffff,
    ;
}

} // verus!
