//! Custody of raw key bytes in memory.
//!
//! Every key of this crate is thirty-two secret bytes. They live in a
//! [`Secret`], which wipes them when it is dropped, so that destroying a key,
//! replacing it or dropping a whole keystore leaves no copy behind.

use vstd::prelude::*;
use zeroize::Zeroizing;

verus! {

/// The length of every secret key in this crate.
pub const SECRET_LEN: usize = 32;

/// Thirty-two secret bytes, held in a `zeroize::Zeroizing`, which overwrites
/// them with zeros on drop.
#[verifier::external_body]
pub struct Secret {
    bytes: Zeroizing<[u8; SECRET_LEN]>,
}

/// The bytes that a [`Secret`] holds.
pub uninterp spec fn secret_contents(secret: Secret) -> Seq<u8>;

/// `Zeroizing::new`: takes `bytes` into custody; what is held is `bytes`.
#[verifier::external_body]
pub(crate) fn guard(bytes: [u8; SECRET_LEN]) -> (secret: Secret)
    ensures
        secret_contents(secret) == bytes@,
{
    Secret { bytes: Zeroizing::new(bytes) }
}

/// `Zeroizing::deref`: lends out the bytes that are held.
#[verifier::external_body]
pub(crate) fn expose(secret: &Secret) -> (bytes: &[u8; SECRET_LEN])
    ensures
        bytes@ == secret_contents(*secret),
{
    &secret.bytes
}

} // verus!
