//! Cryptography as a service: a keystore of fixed capacity that holds AEAD,
//! signing and MAC keys and lets callers use them only through badges. A badge
//! names one key and a set of operations, and is checked before any key
//! material is touched. No raw key ever leaves.
//!
//! - [`aead`], [`signing`] and [`hash`] are the primitives, each behind a small
//!   fixed-size interface. Plain hashing and signature verification need no
//!   secret, so nothing gates them.
//! - [`sealed`] builds macaroon-style bearer tokens on MAC keys.
//! - [`Keystore`] puts key custody, badges and revocation around them.
//! - [`wire`] is the format in which clients ask a keystore to sign, encrypt
//!   and decrypt.
//! - [`model`] says what a keystore is and decides. [`decisions`] says what that
//!   means for each key, badge and token; [`laws`] and [`wire::laws`] say what
//!   holds over time. All of these are ghost: nothing of them runs.
//!
//! The kernel mints badges and carries them; see [`kernel`] for the terms in
//! which the keystore talks about that. Randomness comes from the caller.

use vstd::prelude::*;

pub mod aead;
pub mod bytes;
pub mod decisions;
pub mod hash;
pub mod kernel;
pub mod keys;
mod keystore;
pub mod laws;
pub mod model;
pub mod sealed;
mod secret;
pub mod signing;
pub mod wire;

pub use keys::{KeyId, KeyOps, KeyPurpose, KeystoreError};
pub use keystore::Keystore;

verus! {

} // verus!
