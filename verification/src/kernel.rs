//! The kernel's terms that the keystore speaks in: the rights that a live
//! capability carries, the error that a kernel call ends in, and the request to
//! mint a badge. They are plain values here. Whoever makes the kernel calls
//! translates.

use vstd::prelude::*;

use crate::keys::{KeyId, KeyOps};

verus! {

/// The rights of a kernel capability, one bit each.
#[derive(Clone, Copy, PartialEq, Eq, Debug, Structural)]
pub struct Rights(pub u8);

impl Rights {
    /// No right at all.
    pub fn none() -> (rights: Rights)
        ensures
            rights == Rights(0),
    {
        Rights(0)
    }

    /// The right to read.
    pub fn read() -> (rights: Rights)
        ensures
            rights == Rights(1),
    {
        Rights(1)
    }

    /// The right to write.
    pub fn write() -> (rights: Rights)
        ensures
            rights == Rights(2),
    {
        Rights(2)
    }

    /// The right to hand the capability on.
    pub fn grant() -> (rights: Rights)
        ensures
            rights == Rights(4),
    {
        Rights(4)
    }

    /// Every right there is.
    pub fn all() -> (rights: Rights)
        ensures
            rights == Rights(7),
    {
        Rights(7)
    }

    /// The raw bits.
    pub fn bits(self) -> (bits: u8)
        ensures
            bits == self.0,
    {
        self.0
    }

    /// The rights in either of the two.
    pub fn union(self, other: Rights) -> (both: Rights)
        ensures
            both == Rights(self.0 | other.0),
    {
        Rights(self.0 | other.0)
    }

    /// Whether `other` has every right that `self` has.
    pub open spec fn within(self, other: Rights) -> bool {
        self.0 & !other.0 == 0
    }

    /// Whether `other` has every right that `self` has.
    pub fn is_subset_of(self, other: Rights) -> (subset: bool)
        ensures
            subset == self.within(other),
            subset == (self.0 & !other.0 == 0),
    {
        self.0 & !other.0 == 0
    }
}

/// A failed kernel call, by the kernel's own code. This crate attaches no
/// meaning to the code; it only passes it on.
#[derive(Clone, Copy, PartialEq, Eq, Debug, Structural)]
pub struct SyscallError {
    pub code: u16,
}

/// What the keystore asks of the kernel's capability broker when it has
/// decided that a badge may be minted.
#[derive(Clone, Copy, PartialEq, Eq, Debug, Structural)]
pub struct MintRequest {
    /// The key that the badge will name.
    pub key: KeyId,
    /// The operations that the badge will allow.
    pub ops: KeyOps,
    /// The slot of the capability to mint from.
    pub source_slot: usize,
    /// The slot that receives the minted capability.
    pub scratch_slot: usize,
    /// The rights that the minted capability is to carry.
    pub rights: Rights,
}

/// Being within is a preorder: every set of rights is within itself, and
/// what is within something narrower is within something wider.
pub proof fn rights_within_is_a_preorder(a: Rights, b: Rights, c: Rights)
    ensures
        a.within(a),
        a.within(b) && b.within(c) ==> a.within(c),
{
    let (x, y, z) = (a.0, b.0, c.0);
    assert(x & !x == 0) by (bit_vector);
    assert(x & !y == 0 && y & !z == 0 ==> x & !z == 0) by (bit_vector);
}

/// A union has the rights of both parts, and nothing that neither has.
pub proof fn rights_union_is_least_upper_bound(a: Rights, b: Rights, c: Rights)
    ensures
        a.within(Rights(a.0 | b.0)),
        b.within(Rights(a.0 | b.0)),
        a.within(c) && b.within(c) ==> Rights(a.0 | b.0).within(c),
{
    let (x, y, z) = (a.0, b.0, c.0);
    assert(x & !(x | y) == 0) by (bit_vector);
    assert(y & !(x | y) == 0) by (bit_vector);
    assert(x & !z == 0 && y & !z == 0 ==> (x | y) & !z == 0) by (bit_vector);
}

/// Being within means that there is no bit, and no set of bits, that the one
/// has and the other lacks.
pub proof fn rights_within_is_bit_by_bit(a: Rights, b: Rights, mask: u8)
    ensures
        a.within(b) && a.0 & mask != 0 ==> b.0 & mask != 0,
        !a.within(b) ==> a.0 & (a.0 & !b.0) != 0 && b.0 & (a.0 & !b.0) == 0,
        a.within(b) <==> a.0 | b.0 == b.0,
{
    let (x, y) = (a.0, b.0);
    assert(x & !y == 0 && x & mask != 0 ==> y & mask != 0) by (bit_vector);
    assert(x & !y != 0 ==> x & (x & !y) != 0 && y & (x & !y) == 0) by (bit_vector);
    assert(x & !y == 0 <==> x | y == y) by (bit_vector);
}

} // verus!
