//! The status bits of a supervised entry.

use vstd::prelude::*;

verus! {

/// A set of status bits. The named bits are associated constants; a set may
/// hold others as well.
#[derive(Clone, Copy, Debug, PartialEq, Eq, Structural)]
pub struct ChildFlags {
    pub bits: u32,
}

impl ChildFlags {
    /// The process is still running.
    pub const RUNNING: u32 = 2;

    /// The process is to be killed.
    pub const KILLME: u32 = 4;

    /// The entry is started on demand, by the pseudo-levels a, b and c.
    pub const DEMAND: u32 = 8;

    /// The process respawns too fast.
    pub const FAILING: u32 = 16;

    /// The controller waits for this process.
    pub const WAITING: u32 = 32;

    /// The process is dead and not yet cleaned up.
    pub const ZOMBIE: u32 = 64;

    /// The entry was spawned once or more.
    pub const XECUTED: u32 = 128;

    /// Every named bit.
    pub const ALL: u32 = 254;

    /// Whether every bit of `mask` is set.
    pub open spec fn has(self, mask: u32) -> bool {
        self.bits & mask == mask
    }

    /// The set with the bits of `mask` added.
    pub open spec fn with(self, mask: u32) -> ChildFlags {
        ChildFlags { bits: self.bits | mask }
    }

    /// The set with the bits of `mask` taken out.
    pub open spec fn without(self, mask: u32) -> ChildFlags {
        ChildFlags { bits: self.bits & !mask }
    }

    /// The set without any bit.
    pub fn empty() -> (res: Self)
        ensures
            res.bits == 0,
    {
        ChildFlags { bits: 0 }
    }

    /// The set that holds exactly `bits`, named or not.
    pub fn from_bits_retain(bits: u32) -> (res: Self)
        ensures
            res.bits == bits,
    {
        ChildFlags { bits }
    }

    /// The bits of the set.
    pub fn bits(&self) -> (res: u32)
        ensures
            res == self.bits,
    {
        self.bits
    }

    /// Whether no bit is set.
    pub fn is_empty(&self) -> (res: bool)
        ensures
            res == (self.bits == 0),
    {
        self.bits == 0
    }

    /// Whether every bit of `other` is set.
    pub fn contains(&self, other: u32) -> (res: bool)
        ensures
            res == self.has(other),
    {
        self.bits & other == other
    }

    /// Sets every bit of `other`.
    pub fn insert(&mut self, other: u32)
        ensures
            *final(self) == old(self).with(other),
    {
        self.bits = self.bits | other;
    }

    /// Clears every bit of `other`.
    pub fn remove(&mut self, other: u32)
        ensures
            *final(self) == old(self).without(other),
    {
        self.bits = self.bits & !other;
    }
}

/// Whether `mask` is one of the seven named bits.
pub open spec fn is_named_bit(mask: u32) -> bool {
    mask == ChildFlags::RUNNING || mask == ChildFlags::KILLME || mask == ChildFlags::DEMAND || mask
        == ChildFlags::FAILING || mask == ChildFlags::WAITING || mask == ChildFlags::ZOMBIE || mask
        == ChildFlags::XECUTED
}

/// A named bit is set after `mask` was added exactly if it was set before or
/// is part of `mask`.
pub proof fn lemma_with(flags: ChildFlags, mask: u32, bit: u32)
    requires
        is_named_bit(bit),
    ensures
        flags.with(mask).has(bit) == (flags.has(bit) || mask & bit == bit),
{
    let b = flags.bits;
    assert((bit == 2 || bit == 4 || bit == 8 || bit == 16 || bit == 32 || bit == 64 || bit == 128)
        ==> (((b | mask) & bit == bit) == ((b & bit == bit) || (mask & bit == bit))))
        by (bit_vector);
}

/// A named bit is set after `mask` was taken out exactly if it was set before
/// and is no part of `mask`.
pub proof fn lemma_without(flags: ChildFlags, mask: u32, bit: u32)
    requires
        is_named_bit(bit),
    ensures
        flags.without(mask).has(bit) == (flags.has(bit) && mask & bit != bit),
{
    let b = flags.bits;
    assert((bit == 2 || bit == 4 || bit == 8 || bit == 16 || bit == 32 || bit == 64 || bit == 128)
        ==> (((b & !mask) & bit == bit) == ((b & bit == bit) && (mask & bit != bit))))
        by (bit_vector);
}

/// Of two named bits, one is part of the other only if they are the same.
pub proof fn lemma_named_bits_distinct(a: u32, b: u32)
    requires
        is_named_bit(a),
        is_named_bit(b),
    ensures
        (a & b == b) == (a == b),
{
    assert((a == 2 || a == 4 || a == 8 || a == 16 || a == 32 || a == 64 || a == 128) && (b == 2
        || b == 4 || b == 8 || b == 16 || b == 32 || b == 64 || b == 128) ==> ((a & b == b) == (a
        == b))) by (bit_vector);
}

/// The empty set holds no named bit.
pub proof fn lemma_empty_has_none(bit: u32)
    requires
        is_named_bit(bit),
    ensures
        !(ChildFlags { bits: 0 }).has(bit),
{
    assert((bit == 2 || bit == 4 || bit == 8 || bit == 16 || bit == 32 || bit == 64 || bit == 128)
        ==> 0u32 & bit != bit) by (bit_vector);
}

} // verus!
