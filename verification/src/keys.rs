//! Names of keys, what they are for, which operations they admit, and how an
//! operation on them can fail.

use vstd::prelude::*;

use crate::kernel::SyscallError;

verus! {

/// The name of a key in a keystore. Never reused, even after the key is
/// destroyed.
#[derive(Clone, Copy, PartialEq, Eq, Debug, Structural)]
pub struct KeyId(pub u16);

/// What a key is for.
#[derive(Clone, Copy, PartialEq, Eq, Debug, Structural)]
pub enum KeyPurpose {
    Aead,
    Signing,
    /// A BLAKE3 keyed-mode MAC key. Unlike a plain hash, a MAC needs secret
    /// material, so it is gated like every other key purpose.
    Mac,
}

/// The operations that a granted badge may be scoped to, one bit each. They
/// have nothing to do with the rights of a kernel capability. There is no
/// bit for verifying a signature: that only needs a public key and is never
/// gated.
#[derive(Clone, Copy, PartialEq, Eq, Debug, Structural)]
pub struct KeyOps(pub u8);

/// No operation.
pub const OPS_NONE: u8 = 0;

/// Encrypting under an AEAD key.
pub const OPS_ENCRYPT: u8 = 1;

/// Decrypting under an AEAD key.
pub const OPS_DECRYPT: u8 = 2;

/// Signing under a signing key.
pub const OPS_SIGN: u8 = 4;

/// Computing and verifying a MAC: both need the same secret key.
pub const OPS_MAC: u8 = 8;

/// The operations that make sense on a key of `purpose`.
pub open spec fn admitted_ops(purpose: KeyPurpose) -> KeyOps {
    match purpose {
        KeyPurpose::Aead => KeyOps(3),
        KeyPurpose::Signing => KeyOps(OPS_SIGN),
        KeyPurpose::Mac => KeyOps(OPS_MAC),
    }
}

impl KeyOps {
    /// The empty set of operations.
    pub fn none() -> (ops: KeyOps)
        ensures
            ops == KeyOps(OPS_NONE),
            ops.0 == 0,
    {
        KeyOps(OPS_NONE)
    }

    /// Encryption alone.
    pub fn encrypt() -> (ops: KeyOps)
        ensures
            ops == KeyOps(OPS_ENCRYPT),
            ops.0 == 1,
    {
        KeyOps(OPS_ENCRYPT)
    }

    /// Decryption alone.
    pub fn decrypt() -> (ops: KeyOps)
        ensures
            ops == KeyOps(OPS_DECRYPT),
            ops.0 == 2,
    {
        KeyOps(OPS_DECRYPT)
    }

    /// Signing alone.
    pub fn sign() -> (ops: KeyOps)
        ensures
            ops == KeyOps(OPS_SIGN),
            ops.0 == 4,
    {
        KeyOps(OPS_SIGN)
    }

    /// Computing and verifying a MAC.
    pub fn mac() -> (ops: KeyOps)
        ensures
            ops == KeyOps(OPS_MAC),
            ops.0 == 8,
    {
        KeyOps(OPS_MAC)
    }

    /// Whether every operation in `other` is in `self`.
    pub open spec fn covers(self, other: KeyOps) -> bool {
        self.0 & other.0 == other.0
    }

    /// The operations in either of the two.
    pub fn union(self, other: KeyOps) -> (both: KeyOps)
        ensures
            both == KeyOps(self.0 | other.0),
    {
        KeyOps(self.0 | other.0)
    }

    /// Whether every operation in `other` is in `self`.
    pub fn contains(self, other: KeyOps) -> (covered: bool)
        ensures
            covered == self.covers(other),
            covered == (self.0 & other.0 == other.0),
    {
        self.0 & other.0 == other.0
    }

    /// Whether every operation in `self` makes sense on a key of `purpose`.
    pub fn valid_for(self, purpose: KeyPurpose) -> (valid: bool)
        ensures
            valid == admitted_ops(purpose).covers(self),
            valid == match purpose {
                KeyPurpose::Aead => self.0 & !3u8 == 0,
                KeyPurpose::Signing => self.0 & !4u8 == 0,
                KeyPurpose::Mac => self.0 & !8u8 == 0,
            },
    {
        proof {
            admitted_operations_by_bits(purpose, self);
            assert(1u8 | 2u8 == 3u8) by (bit_vector);
        }
        match purpose {
            KeyPurpose::Aead => self.is_subset_of(KeyOps::encrypt().union(KeyOps::decrypt())),
            KeyPurpose::Signing => self.is_subset_of(KeyOps::sign()),
            KeyPurpose::Mac => self.is_subset_of(KeyOps::mac()),
        }
    }

    /// Whether every operation in `self` is in `other`.
    pub fn is_subset_of(self, other: KeyOps) -> (subset: bool)
        ensures
            subset == other.covers(self),
            subset == (self.0 & !other.0 == 0),
    {
        proof {
            let (a, b) = (self.0, other.0);
            assert((a & !b == 0) == (b & a == a)) by (bit_vector);
        }
        self.0 & !other.0 == 0
    }
}

/// Covering is a preorder: every set of operations covers itself, and what
/// covers something wider covers what is narrower.
pub proof fn covering_is_a_preorder(a: KeyOps, b: KeyOps, c: KeyOps)
    ensures
        a.covers(a),
        a.covers(b) && b.covers(c) ==> a.covers(c),
{
    let (x, y, z) = (a.0, b.0, c.0);
    assert(x & x == x) by (bit_vector);
    assert(x & y == y && y & z == z ==> x & z == z) by (bit_vector);
}

/// A union covers both parts, and only what it must.
pub proof fn union_is_least_cover(a: KeyOps, b: KeyOps, c: KeyOps)
    ensures
        KeyOps(a.0 | b.0).covers(a),
        KeyOps(a.0 | b.0).covers(b),
        c.covers(a) && c.covers(b) ==> c.covers(KeyOps(a.0 | b.0)),
{
    let (x, y, z) = (a.0, b.0, c.0);
    assert((x | y) & x == x) by (bit_vector);
    assert((x | y) & y == y) by (bit_vector);
    assert(z & x == x && z & y == y ==> z & (x | y) == x | y) by (bit_vector);
}

/// No operation makes sense on keys of two different purposes, so a badge
/// that is valid for one kind of key allows nothing on another.
pub proof fn purposes_share_no_operation(p: KeyPurpose, q: KeyPurpose, ops: KeyOps)
    requires
        p != q,
        admitted_ops(p).covers(ops),
        admitted_ops(q).covers(ops),
    ensures
        ops == KeyOps(OPS_NONE),
{
    let x = ops.0;
    assert(3u8 & x == x && 4u8 & x == x ==> x == 0) by (bit_vector);
    assert(3u8 & x == x && 8u8 & x == x ==> x == 0) by (bit_vector);
    assert(4u8 & x == x && 8u8 & x == x ==> x == 0) by (bit_vector);
}

/// How an operation of the keystore can fail.
#[derive(Clone, Copy, PartialEq, Eq, Debug, Structural)]
pub enum KeystoreError {
    NoSuchKey,
    /// The key exists but has been destroyed.
    KeyDestroyed,
    /// The operation does not make sense for the key's purpose.
    WrongPurpose,
    NotEnoughCapacity,
    /// A badge that the keystore never granted.
    UnknownBadge,
    /// A badge that was revoked. A badge that was never granted reads as
    /// revoked: deny by default.
    BadgeRevoked,
    /// The badge is valid but was not granted the operation.
    OpNotGranted,
    /// The badge names a different key; which one is not revealed.
    WrongKey,
    /// The primitive rejected the operation: authentication failure, bad
    /// signature, wrong MAC, or a malformed encoding.
    CryptoFailure,
    /// More caveats than a token can carry.
    TooManyCaveats,
    /// No root token was ever sealed under the token's identifier.
    UnknownSeal,
    /// The token's identifier has been revoked.
    SealRevoked,
    /// The token's MAC chain does not come out at its MAC: forged, corrupted,
    /// or sealed under a different root key.
    TokenInvalid,
    /// The token is genuine and unrevoked, but the request does not satisfy
    /// one of its caveats.
    CaveatNotSatisfied,
    /// The kernel refused; its error is passed on as it is.
    Kernel(SyscallError),
}

/// Covering means that there is no bit, and no set of bits, that the covered
/// has and the covering lacks.
pub proof fn covering_is_bit_by_bit(a: KeyOps, b: KeyOps, mask: u8)
    ensures
        a.covers(b) && b.0 & mask != 0 ==> a.0 & mask != 0,
        !a.covers(b) ==> b.0 & (b.0 & !a.0) != 0 && a.0 & (b.0 & !a.0) == 0,
        a.covers(b) <==> a.0 | b.0 == a.0,
{
    let (x, y) = (a.0, b.0);
    assert(x & y == y && y & mask != 0 ==> x & mask != 0) by (bit_vector);
    assert(x & y != y ==> y & (y & !x) != 0 && x & (y & !x) == 0) by (bit_vector);
    assert(x & y == y <==> x | y == x) by (bit_vector);
}

/// An AEAD key admits encrypting and decrypting, a signing key signing, a MAC
/// key MACs, and none of them anything else.
pub proof fn admitted_operations_by_bits(purpose: KeyPurpose, ops: KeyOps)
    ensures
        admitted_ops(purpose).covers(ops) <==> match purpose {
            KeyPurpose::Aead => ops.0 & !3u8 == 0,
            KeyPurpose::Signing => ops.0 & !4u8 == 0,
            KeyPurpose::Mac => ops.0 & !8u8 == 0,
        },
        admitted_ops(KeyPurpose::Aead).covers(KeyOps(1)),
        admitted_ops(KeyPurpose::Aead).covers(KeyOps(2)),
        admitted_ops(KeyPurpose::Signing).covers(KeyOps(4)),
        admitted_ops(KeyPurpose::Mac).covers(KeyOps(8)),
{
    let x = ops.0;
    assert(3u8 & x == x <==> x & !3u8 == 0) by (bit_vector);
    assert(4u8 & x == x <==> x & !4u8 == 0) by (bit_vector);
    assert(8u8 & x == x <==> x & !8u8 == 0) by (bit_vector);
    assert(3u8 & 1u8 == 1u8 && 3u8 & 2u8 == 2u8 && 4u8 & 4u8 == 4u8 && 8u8 & 8u8 == 8u8)
        by (bit_vector);
}

} // verus!
