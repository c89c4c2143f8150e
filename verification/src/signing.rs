//! Ed25519 signing behind a fixed-size API. Like the other key modules, this
//! one never sources its own randomness.

use ed25519_dalek::{Signature, Signer, Verifier, VerifyingKey};
use vstd::prelude::*;

use crate::secret::{expose, guard, secret_contents, Secret};

verus! {

pub const SEED_LEN: usize = 32;

pub const PUBLIC_KEY_LEN: usize = 32;

pub const SIGNATURE_LEN: usize = 64;

/// The Ed25519 public key that belongs to a secret seed.
pub uninterp spec fn ed25519_public_key(seed: Seq<u8>) -> Seq<u8>;

/// The Ed25519 signature of `message` under a secret seed.
pub uninterp spec fn ed25519_signature(seed: Seq<u8>, message: Seq<u8>) -> Seq<u8>;

/// Whether `public_key` decodes to a curve point and the Ed25519 verification
/// equation holds of it, `message` and a well-formed `signature`.
pub uninterp spec fn ed25519_accepts(
    public_key: Seq<u8>,
    message: Seq<u8>,
    signature: Seq<u8>,
) -> bool;

/// The error of Ed25519 verification and key decoding.
#[verifier::external_type_specification]
#[verifier::external_body]
pub struct ExSignatureError(ed25519_dalek::SignatureError);

/// `ed25519_dalek::SigningKey::sign` under the key that `from_bytes` expands
/// from `seed`. Signing is deterministic. The signature verifies under the
/// seed's own public key.
#[verifier::external_body]
fn dalek_sign(seed: &[u8; SEED_LEN], message: &[u8]) -> (signature: [u8; SIGNATURE_LEN])
    ensures
        signature@ == ed25519_signature(seed@, message@),
        ed25519_accepts(ed25519_public_key(seed@), message@, signature@),
{
    ed25519_dalek::SigningKey::from_bytes(seed).sign(message).to_bytes()
}

/// `ed25519_dalek::SigningKey::verifying_key` of the key that `from_bytes`
/// expands from `seed`.
#[verifier::external_body]
fn dalek_verifying_key(seed: &[u8; SEED_LEN]) -> (public_key: [u8; PUBLIC_KEY_LEN])
    ensures
        public_key@ == ed25519_public_key(seed@),
{
    ed25519_dalek::SigningKey::from_bytes(seed).verifying_key().to_bytes()
}

/// `ed25519_dalek::VerifyingKey::verify` under the key that `from_bytes`
/// decodes from `public_key`; an error where the key does not decode, the
/// signature is malformed or the verification equation fails.
#[verifier::external_body]
fn dalek_verify(
    public_key: &[u8; PUBLIC_KEY_LEN],
    message: &[u8],
    signature: &[u8; SIGNATURE_LEN],
) -> (verdict: Result<(), ed25519_dalek::SignatureError>)
    ensures
        verdict is Ok <==> ed25519_accepts(public_key@, message@, signature@),
{
    VerifyingKey::from_bytes(public_key)?.verify(message, &Signature::from_bytes(signature))
}

/// Signature verification failed, or a public key or signature was malformed.
#[derive(Clone, Copy, PartialEq, Eq, Debug, Structural)]
pub struct SigningError;

/// A signing (private) key: a secret seed, wiped on drop.
pub struct SigningKey(Secret);

impl View for SigningKey {
    type V = Seq<u8>;

    /// The seed that the key is expanded from.
    closed spec fn view(&self) -> Seq<u8> {
        secret_contents(self.0)
    }
}

impl SigningKey {
    /// Builds a key from a caller-supplied random seed.
    pub fn from_random_bytes(seed: [u8; SEED_LEN]) -> (key: Self)
        ensures
            key@ == seed@,
    {
        SigningKey(guard(seed))
    }

    /// Signs `message`; [`verify`] accepts the signature under this key's
    /// public half.
    pub fn sign(&self, message: &[u8]) -> (signature: [u8; SIGNATURE_LEN])
        ensures
            signature@ == ed25519_signature(self@, message@),
            ed25519_accepts(ed25519_public_key(self@), message@, signature@),
    {
        dalek_sign(expose(&self.0), message)
    }

    pub fn verifying_key(&self) -> (public_key: [u8; PUBLIC_KEY_LEN])
        ensures
            public_key@ == ed25519_public_key(self@),
    {
        dalek_verifying_key(expose(&self.0))
    }
}

/// Verifies a signature against a public key. This needs no secret, so
/// nothing gates it.
pub fn verify(
    public_key: &[u8; PUBLIC_KEY_LEN],
    message: &[u8],
    signature: &[u8; SIGNATURE_LEN],
) -> (verdict: Result<(), SigningError>)
    ensures
        verdict is Ok <==> ed25519_accepts(public_key@, message@, signature@),
{
    match dalek_verify(public_key, message, signature) {
        Ok(()) => Ok(()),
        Err(_) => Err(SigningError),
    }
}

} // verus!
