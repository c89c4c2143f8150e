//! Authenticated encryption (XChaCha20-Poly1305) behind a fixed-size API that
//! needs no heap: the caller's own buffer is encrypted in place and only a
//! fixed-size tag comes back. The 192-bit nonce lets a caller pick random
//! nonces without keeping a counter.

use chacha20poly1305::aead::{AeadInPlace, KeyInit};
use chacha20poly1305::{Key, XChaCha20Poly1305, XNonce};
use vstd::prelude::*;

use crate::secret::{expose, guard, secret_contents, Secret};

verus! {

pub const AEAD_KEY_LEN: usize = 32;

pub const NONCE_LEN: usize = 24;

pub const TAG_LEN: usize = 16;

/// Authentication failed on decrypt, or the buffer was too long to process.
/// Deliberately says no more: an authentication failure must not tell why.
#[derive(Clone, Copy, PartialEq, Eq, Debug, Structural)]
pub struct AeadError;

/// The opaque error of the cipher.
#[verifier::external_type_specification]
#[verifier::external_body]
pub struct ExCipherError(chacha20poly1305::Error);

/// What XChaCha20-Poly1305 makes of a plaintext under a key, a nonce and
/// associated data: the ciphertext and its tag.
pub uninterp spec fn xchacha20poly1305_seal(
    key: Seq<u8>,
    nonce: Seq<u8>,
    aad: Seq<u8>,
    plaintext: Seq<u8>,
) -> (Seq<u8>, Seq<u8>);

/// What XChaCha20-Poly1305 makes of a ciphertext and a tag under a key, a
/// nonce and associated data: the plaintext, or nothing where the tag does
/// not authenticate the ciphertext.
pub uninterp spec fn xchacha20poly1305_open(
    key: Seq<u8>,
    nonce: Seq<u8>,
    aad: Seq<u8>,
    ciphertext: Seq<u8>,
    tag: Seq<u8>,
) -> Option<Seq<u8>>;

/// Whether the cipher takes on a buffer of `len` bytes: fewer 64-byte blocks
/// than its 32-bit block counter can tell apart. A longer one is refused.
pub open spec fn within_cipher_limit(len: nat) -> bool {
    len / 64 < 0xffff_ffff
}

/// Whether the key stream reaches to the end of a buffer of `len` bytes, or
/// the buffer is refused outright. The 63 lengths just below the limit are
/// neither: there the stream runs out on the last block, and the cipher
/// panics.
pub open spec fn keystream_covers(len: nat) -> bool {
    len <= 64 * 0xffff_fffe || !within_cipher_limit(len)
}

/// Whether a buffer of `len` bytes can be handed to the cipher.
pub fn keystream_reaches(len: usize) -> (reaches: bool)
    ensures
        reaches == keystream_covers(len as nat),
{
    let len: u64 = len as u64;
    len <= 64 * 0xffff_fffe || len / 64 >= 0xffff_ffff
}

/// Under `key`, `nonce` and `aad`, the ciphertext opens to `plaintext` with
/// `tag`, and with no other tag does it open at all.
pub open spec fn opens_only_with(
    key: Seq<u8>,
    nonce: Seq<u8>,
    aad: Seq<u8>,
    ciphertext: Seq<u8>,
    tag: Seq<u8>,
    plaintext: Seq<u8>,
) -> bool {
    &&& xchacha20poly1305_open(key, nonce, aad, ciphertext, tag) == Some(plaintext)
    &&& forall|other: Seq<u8>|
        other.len() == TAG_LEN && other != tag ==> (#[trigger] xchacha20poly1305_open(
            key,
            nonce,
            aad,
            ciphertext,
            other,
        )) is None
}

/// `AeadInPlace::encrypt_in_place_detached` of `XChaCha20Poly1305`.
///
/// It refuses, leaving the buffer alone, exactly the buffers past the cipher's
/// limit. On any other it succeeds: the buffer then holds the ciphertext, which
/// is as long as the plaintext and is the plaintext combined with a key stream,
/// and the tag is a function of key, nonce, associated data and ciphertext. So
/// decryption under the same three gives the plaintext back for this tag, and
/// refuses every other.
#[verifier::external_body]
fn cipher_encrypt(
    key: &[u8; AEAD_KEY_LEN],
    nonce: &[u8; NONCE_LEN],
    aad: &[u8],
    buffer: &mut [u8],
) -> (sealed: Result<[u8; TAG_LEN], chacha20poly1305::Error>)
    requires
        keystream_covers(old(buffer)@.len()),
    ensures
        sealed is Ok <==> within_cipher_limit(old(buffer)@.len()),
        final(buffer)@.len() == old(buffer)@.len(),
        sealed matches Ok(tag) ==> (final(buffer)@, tag@) == xchacha20poly1305_seal(
            key@,
            nonce@,
            aad@,
            old(buffer)@,
        ),
        sealed matches Ok(tag) ==> opens_only_with(
            key@,
            nonce@,
            aad@,
            final(buffer)@,
            tag@,
            old(buffer)@,
        ),
        sealed is Err ==> final(buffer)@ == old(buffer)@,
{
    XChaCha20Poly1305::new(Key::from_slice(key))
        .encrypt_in_place_detached(XNonce::from_slice(nonce), aad, buffer)
        .map(Into::into)
}

/// `AeadInPlace::decrypt_in_place_detached` of `XChaCha20Poly1305`.
///
/// It checks the tag before it touches the buffer, so a refusal leaves the
/// buffer alone. It refuses every buffer past the cipher's limit. On success the
/// buffer holds the plaintext, as long as the ciphertext was; encrypting that
/// plaintext under the same key, nonce and associated data gives this
/// ciphertext and this tag, and no other tag would have been accepted.
#[verifier::external_body]
fn cipher_decrypt(
    key: &[u8; AEAD_KEY_LEN],
    nonce: &[u8; NONCE_LEN],
    aad: &[u8],
    buffer: &mut [u8],
    tag: &[u8; TAG_LEN],
) -> (opened: Result<(), chacha20poly1305::Error>)
    requires
        keystream_covers(old(buffer)@.len()),
    ensures
        opened is Ok <==> xchacha20poly1305_open(key@, nonce@, aad@, old(buffer)@, tag@) is Some,
        opened is Ok ==> within_cipher_limit(old(buffer)@.len()),
        final(buffer)@.len() == old(buffer)@.len(),
        opened is Ok ==> opens_only_with(
            key@,
            nonce@,
            aad@,
            old(buffer)@,
            tag@,
            final(buffer)@,
        ),
        opened is Ok ==> xchacha20poly1305_seal(key@, nonce@, aad@, final(buffer)@) == (
            old(buffer)@,
            tag@,
        ),
        opened is Err ==> final(buffer)@ == old(buffer)@,
{
    XChaCha20Poly1305::new(Key::from_slice(key))
        .decrypt_in_place_detached(XNonce::from_slice(nonce), aad, buffer, tag.into())
}

/// A raw AEAD key, wiped on drop.
pub struct AeadKey(Secret);

impl View for AeadKey {
    type V = Seq<u8>;

    /// The key's bytes.
    closed spec fn view(&self) -> Seq<u8> {
        secret_contents(self.0)
    }
}

impl AeadKey {
    /// Builds a key from caller-supplied random bytes. This crate has no
    /// entropy source of its own.
    pub fn from_random_bytes(bytes: [u8; AEAD_KEY_LEN]) -> (key: Self)
        ensures
            key@ == bytes@,
    {
        AeadKey(guard(bytes))
    }

    /// Encrypts `buffer` in place; returns the detached authentication tag.
    /// `nonce` must never repeat under the same key; picking it is the
    /// caller's responsibility.
    ///
    /// Decrypting the result gives back what was in `buffer`, for this tag
    /// and for no other.
    pub fn encrypt_in_place_detached(
        &self,
        nonce: &[u8; NONCE_LEN],
        aad: &[u8],
        buffer: &mut [u8],
    ) -> (sealed: Result<[u8; TAG_LEN], AeadError>)
        requires
            keystream_covers(old(buffer)@.len()),
        ensures
            sealed is Ok <==> within_cipher_limit(old(buffer)@.len()),
            final(buffer)@.len() == old(buffer)@.len(),
            sealed matches Ok(tag) ==> (final(buffer)@, tag@) == xchacha20poly1305_seal(
                self@,
                nonce@,
                aad@,
                old(buffer)@,
            ),
            sealed matches Ok(tag) ==> opens_only_with(
                self@,
                nonce@,
                aad@,
                final(buffer)@,
                tag@,
                old(buffer)@,
            ),
            sealed is Err ==> final(buffer)@ == old(buffer)@,
    {
        match cipher_encrypt(expose(&self.0), nonce, aad, buffer) {
            Ok(tag) => Ok(tag),
            Err(_) => Err(AeadError),
        }
    }

    /// Decrypts `buffer` in place against the detached `tag`. On
    /// authentication failure `buffer` still holds the ciphertext.
    ///
    /// Only what encryption under this key, `nonce` and `aad` makes of the
    /// plaintext is accepted.
    pub fn decrypt_in_place_detached(
        &self,
        nonce: &[u8; NONCE_LEN],
        aad: &[u8],
        buffer: &mut [u8],
        tag: &[u8; TAG_LEN],
    ) -> (opened: Result<(), AeadError>)
        requires
            keystream_covers(old(buffer)@.len()),
        ensures
            opened is Ok <==> xchacha20poly1305_open(self@, nonce@, aad@, old(buffer)@, tag@) is Some,
            opened is Ok ==> within_cipher_limit(old(buffer)@.len()),
            final(buffer)@.len() == old(buffer)@.len(),
            opened is Ok ==> opens_only_with(
                self@,
                nonce@,
                aad@,
                old(buffer)@,
                tag@,
                final(buffer)@,
            ),
            opened is Ok ==> xchacha20poly1305_seal(self@, nonce@, aad@, final(buffer)@) == (
                old(buffer)@,
                tag@,
            ),
            opened is Err ==> final(buffer)@ == old(buffer)@,
    {
        match cipher_decrypt(expose(&self.0), nonce, aad, buffer, tag) {
            Ok(()) => Ok(()),
            Err(_) => Err(AeadError),
        }
    }
}

/// The cipher takes buffers of fewer than 64 times 0xffff_ffff bytes. Of the
/// lengths below that, its key stream does not reach the last 63.
pub proof fn the_cipher_takes_these_lengths(len: nat)
    ensures
        within_cipher_limit(len) <==> len < 274_877_906_880,
        keystream_covers(len) <==> len <= 274_877_906_816 || len >= 274_877_906_880,
{
}

/// To open only with a tag is to open to the plaintext with it, and with no
/// other tag of the same length at all.
pub proof fn only_the_one_tag_opens(
    key: Seq<u8>,
    nonce: Seq<u8>,
    aad: Seq<u8>,
    ciphertext: Seq<u8>,
    tag: Seq<u8>,
    plaintext: Seq<u8>,
    other: Seq<u8>,
)
    requires
        opens_only_with(key, nonce, aad, ciphertext, tag, plaintext),
        other.len() == 16,
    ensures
        xchacha20poly1305_open(key, nonce, aad, ciphertext, other) == if other == tag {
            Some(plaintext)
        } else {
            None
        },
{
}

} // verus!
