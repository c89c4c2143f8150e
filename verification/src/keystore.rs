//! The keystore: fixed-capacity custody of AEAD, signing and MAC keys. Callers
//! get badges for operations, never raw keys.
//!
//! A badge names one key and a set of operations. Every operation that touches
//! key material first asks whether the badge may do it, and denies by default.
//! The kernel mints badges and carries them to clients; the keystore decides
//! which ones to ask for ([`Keystore::request_key_access`]) and keeps the
//! record of what each is good for ([`Keystore::record_key_access`]).
//!
//! Randomness is not sourced here: key generation takes random bytes from the
//! caller.

use vstd::prelude::*;

use crate::aead::{
    keystream_covers, opens_only_with, xchacha20poly1305_open, xchacha20poly1305_seal, AeadKey,
    AEAD_KEY_LEN, NONCE_LEN, TAG_LEN,
};
use crate::bytes::same_bytes;
use crate::hash::{blake3_keyed_hash, MacKey, HASH_LEN, MAC_KEY_LEN};
use crate::kernel::{MintRequest, Rights, SyscallError};
use crate::keys::{
    admitted_ops, KeyId, KeyOps, KeyPurpose, KeystoreError, OPS_DECRYPT, OPS_ENCRYPT, OPS_MAC, OPS_SIGN,
};
use crate::laws::{
    adding_a_key_evolves, destroying_a_key_evolves, evolution_is_a_preorder, granting_evolves,
    revocation_is_final, revocation_touches_no_other_badge,
    revoking_a_badge_evolves, revoking_a_seal_evolves, sealing_evolves,
};
use crate::model::{
    first_is_position, mint_request, position, position_is_first, GrantView, KeyView, KeystoreView, MaterialView, SealView, MAX_GRANTS,
    MAX_KEYS, MAX_SEALS,
};
use crate::sealed::{
    caveats_satisfied, chain, seal, verify_chain, Caveat, SealedToken, IDENTIFIER_LEN,
};
use crate::signing::{
    ed25519_accepts, ed25519_public_key, ed25519_signature, verify, SigningKey, PUBLIC_KEY_LEN, SEED_LEN, SIGNATURE_LEN,
};

verus! {

/// The secret of a key. A destroyed key leaves a tombstone, so that its name
/// is never handed out again: a badge for the old key must not start naming
/// an unrelated new one.
enum KeyMaterial {
    Aead(AeadKey),
    Signing(SigningKey),
    Mac(MacKey),
    Destroyed,
}

struct KeyRecord {
    purpose: KeyPurpose,
    material: KeyMaterial,
}

#[derive(Clone, Copy)]
struct GrantRecord {
    badge: u64,
    key: KeyId,
    ops: KeyOps,
    revoked: bool,
}

#[derive(Clone, Copy)]
struct SealRecord {
    identifier: [u8; IDENTIFIER_LEN],
    key: KeyId,
    revoked: bool,
}

impl View for KeyMaterial {
    type V = MaterialView;

    closed spec fn view(&self) -> MaterialView {
        match self {
            KeyMaterial::Aead(k) => MaterialView::Aead(k@),
            KeyMaterial::Signing(k) => MaterialView::Signing(k@),
            KeyMaterial::Mac(k) => MaterialView::Mac(k@),
            KeyMaterial::Destroyed => MaterialView::Destroyed,
        }
    }
}

impl View for KeyRecord {
    type V = KeyView;

    closed spec fn view(&self) -> KeyView {
        KeyView { purpose: self.purpose, material: self.material@ }
    }
}

impl View for GrantRecord {
    type V = GrantView;

    closed spec fn view(&self) -> GrantView {
        GrantView { badge: self.badge, key: self.key, ops: self.ops }
    }
}

impl View for SealRecord {
    type V = SealView;

    closed spec fn view(&self) -> SealView {
        SealView { identifier: self.identifier@, key: self.key, revoked: self.revoked }
    }
}

/// The keystore: keys, the badges granted on them, and the root tokens sealed
/// under them. Slots fill from the front and are never freed.
pub struct Keystore {
    keys: [Option<KeyRecord>; MAX_KEYS],
    key_count: usize,
    grants: [Option<GrantRecord>; MAX_GRANTS],
    grant_count: usize,
    /// Badges that were revoked without having been granted.
    strays: Vec<u64>,
    seals: [Option<SealRecord>; MAX_SEALS],
    seal_count: usize,
}

impl View for Keystore {
    type V = KeystoreView;

    closed spec fn view(&self) -> KeystoreView {
        KeystoreView {
            keys: Seq::new(self.key_count as nat, |i: int| self.keys@[i]->0@),
            grants: Seq::new(self.grant_count as nat, |i: int| self.grants@[i]->0@),
            revoked: Set::new(|badge: u64| self.marks_revoked(badge)),
            seals: Seq::new(self.seal_count as nat, |i: int| self.seals@[i]->0@),
        }
    }
}

impl Keystore {
    /// Whether a granted badge carries the mark, or the badge is a stray.
    spec fn marks_revoked(&self, badge: u64) -> bool {
        ||| self.strays@.contains(badge)
        ||| exists|i: int|
            0 <= i < self.grant_count && (#[trigger] self.grants@[i])->0.badge == badge
                && self.grants@[i]->0.revoked
    }

    /// The slots below each count are filled, with keys whose material fits
    /// their purpose, badges that allow only what their key admits, and sealed
    /// tokens that hang on MAC keys.
    #[verifier::type_invariant]
    spec fn filled_to_count(&self) -> bool {
        &&& self.key_count <= MAX_KEYS
        &&& self.grant_count <= MAX_GRANTS
        &&& self.seal_count <= MAX_SEALS
        &&& forall|i: int|
            0 <= i < self.key_count ==> (#[trigger] self.keys@[i] matches Some(k) && k@.wf())
        &&& forall|i: int|
            0 <= i < self.grant_count ==> (#[trigger] self.grants@[i] matches Some(g) && g.key.0
                < self.key_count && admitted_ops(
                self.keys@[g.key.0 as int]->0.purpose,
            ).covers(g.ops))
        &&& forall|i: int|
            0 <= i < self.seal_count ==> (#[trigger] self.seals@[i] matches Some(s) && s.key.0
                < self.key_count && self.keys@[s.key.0 as int]->0.purpose == KeyPurpose::Mac)
    }

    /// What the slots hold is a keystore.
    proof fn slots_hold_a_keystore(&self)
        requires
            self.filled_to_count(),
        ensures
            self@.wf(),
    {
    }

    /// A keystore that holds nothing.
    pub fn new() -> (keystore: Self)
        ensures
            keystore@ == KeystoreView::empty(),
            keystore@.keys.len() == 0,
            keystore@.grants.len() == 0,
            keystore@.seals.len() == 0,
            forall|badge: u64| !#[trigger] keystore@.revoked.contains(badge),
            keystore@.wf(),
    {
        let keystore = Keystore {
            keys: [
                None,
                None,
                None,
                None,
                None,
                None,
                None,
                None,
                None,
                None,
                None,
                None,
                None,
                None,
                None,
                None,
            ],
            key_count: 0,
            grants: [None;MAX_GRANTS],
            grant_count: 0,
            strays: Vec::new(),
            seals: [None;MAX_SEALS],
            seal_count: 0,
        };
        proof {
            assert(keystore@ =~= KeystoreView::empty());
        }
        keystore
    }

    /// The record of a key.
    fn key_record(&self, id: KeyId) -> (record: Result<&KeyRecord, KeystoreError>)
        ensures
            match self@.key(id) {
                Ok(k) => record matches Ok(r) && r@ == k,
                Err(e) => record == Err::<&KeyRecord, KeystoreError>(e),
            },
    {
        proof {
            use_type_invariant(self);
        }
        let i: usize = id.0 as usize;
        if i >= self.key_count {
            return Err(KeystoreError::NoSuchKey);
        }
        match &self.keys[i] {
            Some(record) => Ok(record),
            None => Err(KeystoreError::NoSuchKey),
        }
    }

    /// The first grant under a badge.
    fn find_grant(&self, badge: u64) -> (at: Option<usize>)
        ensures
            match position(self@.badges(), badge) {
                Some(p) => at matches Some(i) && i == p && i < self.grant_count,
                None => at is None,
            },
    {
        proof {
            use_type_invariant(self);
        }
        let ghost badges = self@.badges();
        let mut i: usize = 0;
        while i < self.grant_count
            invariant
                i <= self.grant_count,
                self.filled_to_count(),
                badges == self@.badges(),
                forall|j: int| 0 <= j < i ==> #[trigger] badges[j] != badge,
            decreases self.grant_count - i,
        {
            if let Some(grant) = &self.grants[i] {
                proof {
                    assert(badges[i as int] == grant.badge);
                }
                if grant.badge == badge {
                    proof {
                        first_is_position(badges, badge, i as int);
                    }
                    return Some(i);
                }
            }
            i = i + 1;
        }
        proof {
            position_is_first(badges, badge);
        }
        None
    }

    /// The first sealed root token under an identifier.
    fn find_seal(&self, identifier: &[u8; IDENTIFIER_LEN]) -> (at: Option<usize>)
        ensures
            match position(self@.identifiers(), identifier@) {
                Some(p) => at matches Some(i) && i == p && i < self.seal_count,
                None => at is None,
            },
    {
        proof {
            use_type_invariant(self);
        }
        let ghost identifiers = self@.identifiers();
        let mut i: usize = 0;
        while i < self.seal_count
            invariant
                i <= self.seal_count,
                self.filled_to_count(),
                identifiers == self@.identifiers(),
                forall|j: int| 0 <= j < i ==> #[trigger] identifiers[j] != identifier@,
            decreases self.seal_count - i,
        {
            if let Some(record) = &self.seals[i] {
                proof {
                    assert(identifiers[i as int] == record.identifier@);
                }
                if same_bytes(&record.identifier, identifier) {
                    proof {
                        first_is_position(identifiers, identifier@, i as int);
                    }
                    return Some(i);
                }
            }
            i = i + 1;
        }
        proof {
            position_is_first(identifiers, identifier@);
        }
        None
    }

    /// Whether a badge is no longer good, or never was.
    fn is_revoked(&self, badge: u64) -> (revoked: bool)
        ensures
            revoked == self@.is_revoked(badge),
    {
        proof {
            use_type_invariant(self);
        }
        if self.find_grant(badge).is_none() {
            return true;
        }
        let mut i: usize = 0;
        while i < self.grant_count
            invariant
                i <= self.grant_count,
                self.filled_to_count(),
                forall|j: int|
                    0 <= j < i ==> !((#[trigger] self.grants@[j])->0.badge == badge
                        && self.grants@[j]->0.revoked),
            decreases self.grant_count - i,
        {
            if let Some(grant) = &self.grants[i] {
                if grant.badge == badge && grant.revoked {
                    proof {
                        assert(self.grants@[i as int]->0.revoked);
                        assert(self.marks_revoked(badge));
                    }
                    return true;
                }
            }
            i = i + 1;
        }
        self.is_stray(badge)
    }

    /// Whether a badge was revoked without having been granted.
    fn is_stray(&self, badge: u64) -> (stray: bool)
        ensures
            stray == self.strays@.contains(badge),
    {
        let mut i: usize = 0;
        while i < self.strays.len()
            invariant
                i <= self.strays@.len(),
                forall|j: int| 0 <= j < i ==> #[trigger] self.strays@[j] != badge,
            decreases self.strays@.len() - i,
        {
            if self.strays[i] == badge {
                return true;
            }
            i = i + 1;
        }
        false
    }

    /// Deny by default. Checks, in order: that the badge was granted and is not
    /// revoked, that it names `key` and not merely some key, and that its
    /// operations cover `op`. Every operation on key material calls this first.
    fn check_access(&self, badge: u64, key: KeyId, op: KeyOps) -> (verdict: Result<
        (),
        KeystoreError,
    >)
        ensures
            verdict == self@.check_access(badge, key, op),
    {
        proof {
            use_type_invariant(self);
        }
        if self.is_revoked(badge) {
            return Err(KeystoreError::BadgeRevoked);
        }
        let at: usize = match self.find_grant(badge) {
            Some(i) => i,
            None => return Err(KeystoreError::UnknownBadge),
        };
        match &self.grants[at] {
            Some(grant) => if grant.key != key {
                Err(KeystoreError::WrongKey)
            } else if !grant.ops.contains(op) {
                Err(KeystoreError::OpNotGranted)
            } else {
                Ok(())
            },
            None => Err(KeystoreError::UnknownBadge),
        }
    }

    /// The AEAD key that `badge` may use for `op`.
    pub(crate) fn aead_key(&self, badge: u64, key: KeyId, op: KeyOps) -> (found: Result<
        &AeadKey,
        KeystoreError,
    >)
        ensures
            match self@.aead_key(badge, key, op) {
                Ok(bytes) => found matches Ok(k) && k@ == bytes,
                Err(e) => found == Err::<&AeadKey, KeystoreError>(e),
            },
    {
        self.check_access(badge, key, op)?;
        match &self.key_record(key)?.material {
            KeyMaterial::Aead(k) => Ok(k),
            KeyMaterial::Destroyed => Err(KeystoreError::KeyDestroyed),
            KeyMaterial::Signing(_) | KeyMaterial::Mac(_) => Err(KeystoreError::WrongPurpose),
        }
    }

    /// The signing key of a name.
    fn signing_key(&self, key: KeyId) -> (found: Result<&SigningKey, KeystoreError>)
        ensures
            match self@.seed(key) {
                Ok(seed) => found matches Ok(k) && k@ == seed,
                Err(e) => found == Err::<&SigningKey, KeystoreError>(e),
            },
    {
        match &self.key_record(key)?.material {
            KeyMaterial::Signing(k) => Ok(k),
            KeyMaterial::Destroyed => Err(KeystoreError::KeyDestroyed),
            KeyMaterial::Aead(_) | KeyMaterial::Mac(_) => Err(KeystoreError::WrongPurpose),
        }
    }

    /// The MAC key that `badge` may use.
    fn mac_key(&self, badge: u64, key: KeyId) -> (found: Result<&MacKey, KeystoreError>)
        ensures
            match self@.mac_key(badge, key) {
                Ok(bytes) => found matches Ok(k) && k@ == bytes,
                Err(e) => found == Err::<&MacKey, KeystoreError>(e),
            },
    {
        self.check_access(badge, key, KeyOps::mac())?;
        match &self.key_record(key)?.material {
            KeyMaterial::Mac(k) => Ok(k),
            KeyMaterial::Destroyed => Err(KeystoreError::KeyDestroyed),
            KeyMaterial::Aead(_) | KeyMaterial::Signing(_) => Err(KeystoreError::WrongPurpose),
        }
    }

    /// Encrypts `buffer` in place under `key`; returns the authentication tag.
    /// `badge` must have been granted encryption for `key`. On an error the
    /// buffer is untouched.
    ///
    /// Wherever the same key may be used to decrypt, the result decrypts to
    /// what was in `buffer`, and with any other tag it does not decrypt.
    pub fn encrypt(
        &self,
        badge: u64,
        key: KeyId,
        nonce: &[u8; NONCE_LEN],
        aad: &[u8],
        buffer: &mut [u8],
    ) -> (sealed: Result<[u8; TAG_LEN], KeystoreError>)
        requires
            self@.aead_key(badge, key, KeyOps(OPS_ENCRYPT)) is Ok ==> keystream_covers(
                old(buffer)@.len(),
            ),
        ensures
            final(buffer)@.len() == old(buffer)@.len(),
            match self@.encrypt_outcome(badge, key, nonce@, aad@, old(buffer)@) {
                Ok((ciphertext, t)) => {
                    &&& sealed matches Ok(tag) && tag@ == t
                    &&& final(buffer)@ == ciphertext
                },
                Err(e) => {
                    &&& sealed == Err::<[u8; TAG_LEN], KeystoreError>(e)
                    &&& final(buffer)@ == old(buffer)@
                },
            },
            self@.aead_key(badge, key, KeyOps(1)) matches Ok(k) ==> {
                &&& sealed is Ok <==> old(buffer)@.len() < 274_877_906_880
                &&& sealed matches Ok(tag) ==> (final(buffer)@, tag@) == xchacha20poly1305_seal(
                    k,
                    nonce@,
                    aad@,
                    old(buffer)@,
                )
                &&& sealed is Err ==> sealed == Err::<[u8; TAG_LEN], KeystoreError>(
                    KeystoreError::CryptoFailure,
                )
            },
            sealed matches Ok(tag) ==> {
                &&& key.0 < self@.keys.len()
                &&& self@.keys[key.0 as int].material matches MaterialView::Aead(k)
                &&& (final(buffer)@, tag@) == xchacha20poly1305_seal(
                    k,
                    nonce@,
                    aad@,
                    old(buffer)@,
                )
                &&& opens_only_with(k, nonce@, aad@, final(buffer)@, tag@, old(buffer)@)
            },
            sealed matches Ok(tag) ==> forall|later: KeystoreView, reader: u64, name: KeyId|
                later.aead_key(reader, name, KeyOps(OPS_DECRYPT)) == self@.aead_key(
                    badge,
                    key,
                    KeyOps(OPS_ENCRYPT),
                ) ==> #[trigger] later.decrypt_outcome(
                    reader,
                    name,
                    nonce@,
                    aad@,
                    final(buffer)@,
                    tag@,
                ) == Ok::<Seq<u8>, KeystoreError>(old(buffer)@),
            sealed matches Ok(tag) ==> forall|
                later: KeystoreView,
                reader: u64,
                name: KeyId,
                other: Seq<u8>,
            |
                other.len() == TAG_LEN && other != tag@ && later.aead_key(
                    reader,
                    name,
                    KeyOps(OPS_DECRYPT),
                ) == self@.aead_key(badge, key, KeyOps(OPS_ENCRYPT))
                    ==> #[trigger] later.decrypt_outcome(
                    reader,
                    name,
                    nonce@,
                    aad@,
                    final(buffer)@,
                    other,
                ) == Err::<Seq<u8>, KeystoreError>(KeystoreError::CryptoFailure),
    {
        let k = self.aead_key(badge, key, KeyOps::encrypt())?;
        match k.encrypt_in_place_detached(nonce, aad, buffer) {
            Ok(tag) => Ok(tag),
            Err(_) => Err(KeystoreError::CryptoFailure),
        }
    }

    /// Decrypts `buffer` in place under `key`. `badge` must have been granted
    /// decryption for `key`. On an error the buffer still holds the
    /// ciphertext.
    ///
    /// Nothing decrypts but what encrypting its plaintext gives.
    pub fn decrypt(
        &self,
        badge: u64,
        key: KeyId,
        nonce: &[u8; NONCE_LEN],
        aad: &[u8],
        buffer: &mut [u8],
        tag: &[u8; TAG_LEN],
    ) -> (opened: Result<(), KeystoreError>)
        requires
            self@.aead_key(badge, key, KeyOps(OPS_DECRYPT)) is Ok ==> keystream_covers(
                old(buffer)@.len(),
            ),
        ensures
            final(buffer)@.len() == old(buffer)@.len(),
            match self@.decrypt_outcome(badge, key, nonce@, aad@, old(buffer)@, tag@) {
                Ok(plaintext) => opened is Ok && final(buffer)@ == plaintext,
                Err(e) => {
                    &&& opened == Err::<(), KeystoreError>(e)
                    &&& final(buffer)@ == old(buffer)@
                },
            },
            self@.aead_key(badge, key, KeyOps(2)) matches Ok(k) ==> match xchacha20poly1305_open(
                k,
                nonce@,
                aad@,
                old(buffer)@,
                tag@,
            ) {
                Some(plaintext) => opened is Ok && final(buffer)@ == plaintext,
                None => {
                    &&& opened == Err::<(), KeystoreError>(KeystoreError::CryptoFailure)
                    &&& final(buffer)@ == old(buffer)@
                },
            },
            opened is Ok ==> {
                &&& key.0 < self@.keys.len()
                &&& self@.keys[key.0 as int].material matches MaterialView::Aead(k)
                &&& xchacha20poly1305_open(k, nonce@, aad@, old(buffer)@, tag@) == Some(
                    final(buffer)@,
                )
                &&& xchacha20poly1305_seal(k, nonce@, aad@, final(buffer)@) == (
                    old(buffer)@,
                    tag@,
                )
            },
            opened is Ok ==> forall|writer: u64, name: KeyId|
                self@.aead_key(writer, name, KeyOps(OPS_ENCRYPT)) == self@.aead_key(
                    badge,
                    key,
                    KeyOps(OPS_DECRYPT),
                ) ==> #[trigger] self@.encrypt_outcome(
                    writer,
                    name,
                    nonce@,
                    aad@,
                    final(buffer)@,
                ) == Ok::<(Seq<u8>, Seq<u8>), KeystoreError>((old(buffer)@, tag@)),
    {
        let k = self.aead_key(badge, key, KeyOps::decrypt())?;
        match k.decrypt_in_place_detached(nonce, aad, buffer, tag) {
            Ok(()) => Ok(()),
            Err(_) => Err(KeystoreError::CryptoFailure),
        }
    }

    /// Signs `message` under `key`. `badge` must have been granted signing for
    /// `key`. Anyone can verify the signature: see [`Keystore::verify`].
    pub fn sign(&self, badge: u64, key: KeyId, message: &[u8]) -> (signed: Result<
        [u8; SIGNATURE_LEN],
        KeystoreError,
    >)
        ensures
            match self@.sign_outcome(badge, key, message@) {
                Ok(signature) => signed matches Ok(s) && s@ == signature,
                Err(e) => signed == Err::<[u8; SIGNATURE_LEN], KeystoreError>(e),
            },
            signed matches Ok(s) ==> {
                &&& key.0 < self@.keys.len()
                &&& self@.keys[key.0 as int].material matches MaterialView::Signing(seed)
                &&& s@ == ed25519_signature(seed, message@)
                &&& ed25519_accepts(ed25519_public_key(seed), message@, s@)
            },
            self@.seed(key) matches Ok(seed) ==> (self@.check_access(badge, key, KeyOps(4)) is Ok
                <==> signed is Ok),
            signed matches Ok(s) ==> forall|later: KeystoreView, name: KeyId|
                later.seed(name) == self@.seed(key) ==> (#[trigger] later.verify_outcome(
                    name,
                    message@,
                    s@,
                )) is Ok,
    {
        self.check_access(badge, key, KeyOps::sign())?;
        let k = self.signing_key(key)?;
        Ok(k.sign(message))
    }

    /// Computes the MAC of `message` under `key`. `badge` must have been
    /// granted MACs for `key`.
    pub fn mac(&self, badge: u64, key: KeyId, message: &[u8]) -> (computed: Result<
        crate::hash::Hash,
        KeystoreError,
    >)
        ensures
            match self@.mac_outcome(badge, key, message@) {
                Ok(mac) => computed matches Ok(m) && m@ == mac,
                Err(e) => computed == Err::<crate::hash::Hash, KeystoreError>(e),
            },
            computed matches Ok(m) ==> m@.len() == HASH_LEN,
            computed matches Ok(m) ==> {
                &&& key.0 < self@.keys.len()
                &&& self@.keys[key.0 as int].material matches MaterialView::Mac(k)
                &&& m@ == blake3_keyed_hash(k, message@)
            },
            self@.mac_key(badge, key) is Ok <==> computed is Ok,
    {
        let k = self.mac_key(badge, key)?;
        Ok(k.compute(message))
    }

    /// Verifies a MAC in constant time. Unlike a signature's, this needs the
    /// secret key, so it is gated as [`Keystore::mac`] is.
    pub fn verify_mac(
        &self,
        badge: u64,
        key: KeyId,
        message: &[u8],
        mac: &crate::hash::Hash,
    ) -> (verdict: Result<(), KeystoreError>)
        ensures
            verdict == self@.verify_mac_outcome(badge, key, message@, mac@),
            verdict is Ok ==> {
                &&& key.0 < self@.keys.len()
                &&& self@.keys[key.0 as int].material matches MaterialView::Mac(k)
                &&& mac@ == blake3_keyed_hash(k, message@)
            },
            self@.mac_key(badge, key) matches Ok(k) ==> (verdict is Ok <==> mac@
                == blake3_keyed_hash(k, message@)),
    {
        let k = self.mac_key(badge, key)?;
        match k.verify(message, mac) {
            Ok(()) => Ok(()),
            Err(_) => Err(KeystoreError::CryptoFailure),
        }
    }

    /// The public half of a signing key. No badge is asked for: a public key
    /// is no secret.
    pub fn verifying_key(&self, key: KeyId) -> (found: Result<[u8; PUBLIC_KEY_LEN], KeystoreError>)
        ensures
            match self@.seed(key) {
                Ok(seed) => found matches Ok(public) && public@ == ed25519_public_key(seed),
                Err(e) => found == Err::<[u8; PUBLIC_KEY_LEN], KeystoreError>(e),
            },
            found matches Ok(public) ==> {
                &&& key.0 < self@.keys.len()
                &&& self@.keys[key.0 as int].material matches MaterialView::Signing(seed)
                &&& public@ == ed25519_public_key(seed)
            },
    {
        let k = self.signing_key(key)?;
        Ok(k.verifying_key())
    }

    /// Verifies a signature against the public half of `key`. No badge is
    /// asked for.
    pub fn verify(&self, key: KeyId, message: &[u8], signature: &[u8; SIGNATURE_LEN]) -> (verdict:
        Result<(), KeystoreError>)
        ensures
            verdict == self@.verify_outcome(key, message@, signature@),
            self@.seed(key) matches Ok(seed) ==> (verdict is Ok <==> ed25519_accepts(
                ed25519_public_key(seed),
                message@,
                signature@,
            )),
            verdict is Ok ==> {
                &&& key.0 < self@.keys.len()
                &&& self@.keys[key.0 as int].material matches MaterialView::Signing(seed)
                &&& ed25519_accepts(ed25519_public_key(seed), message@, signature@)
            },
    {
        let public = self.verifying_key(key)?;
        match verify(&public, message, signature) {
            Ok(()) => Ok(()),
            Err(_) => Err(KeystoreError::CryptoFailure),
        }
    }

    /// Verifies `token` and holds its caveats against the request. `now` is the
    /// caller's clock, or `None` where there is none; an expiry is then
    /// unsatisfied, not unchecked. `requested_rights` is what the caller means
    /// the live capability to carry.
    ///
    /// On success it is the caller that mints that capability.
    pub fn unseal(
        &self,
        badge: u64,
        token: &SealedToken,
        now: Option<u64>,
        requested_rights: Rights,
    ) -> (verdict: Result<(), KeystoreError>)
        ensures
            verdict == self@.unseal_outcome(badge, token@, now, requested_rights),
    {
        proof {
            use_type_invariant(self);
        }
        let at: usize = match self.find_seal(token.identifier()) {
            Some(i) => i,
            None => return Err(KeystoreError::UnknownSeal),
        };
        let record = match self.seals[at] {
            Some(record) => record,
            None => return Err(KeystoreError::UnknownSeal),
        };
        if record.revoked {
            return Err(KeystoreError::SealRevoked);
        }
        let root = self.mac_key(badge, record.key)?;
        if !verify_chain(root, token) {
            return Err(KeystoreError::TokenInvalid);
        }
        if !caveats_satisfied(token, now, requested_rights) {
            return Err(KeystoreError::CaveatNotSatisfied);
        }
        Ok(())
    }

    /// The key that a badge names, revoked or not; none for a badge that was
    /// never granted.
    pub fn key_for_badge(&self, badge: u64) -> (key: Option<KeyId>)
        ensures
            key == match self@.grant(badge) {
                Some(g) => Some(g.key),
                None => None,
            },
    {
        proof {
            use_type_invariant(self);
        }
        let at: usize = match self.find_grant(badge) {
            Some(i) => i,
            None => return None,
        };
        match &self.grants[at] {
            Some(grant) => Some(grant.key),
            None => None,
        }
    }

    /// Stores a new key in the first free slot, which is then its own for
    /// good.
    fn store_key(&mut self, purpose: KeyPurpose, material: KeyMaterial) -> (stored: Result<
        KeyId,
        KeystoreError,
    >)
        requires
            (KeyView { purpose, material: material@ }).wf(),
        ensures
            stored == old(self)@.next_key(),
            final(self)@ == match stored {
                Ok(_) => old(self)@.with_key(purpose, material@),
                Err(_) => old(self)@,
            },
            stored is Ok <==> old(self)@.keys.len() < 16,
            stored matches Ok(id) ==> {
                &&& id.0 == old(self)@.keys.len()
                &&& final(self)@.keys == old(self)@.keys.push(
                    KeyView { purpose: purpose, material: material@ },
                )
            },
            stored is Err ==> final(self)@.keys == old(self)@.keys,
            final(self)@.grants == old(self)@.grants,
            final(self)@.revoked == old(self)@.revoked,
            final(self)@.seals == old(self)@.seals,
            final(self)@.wf(),
            old(self)@.evolves_to(final(self)@),
    {
        proof {
            use_type_invariant(&*self);
            self.slots_hold_a_keystore();
            evolution_is_a_preorder(self@, self@, self@);
        }
        let n: usize = self.key_count;
        if n >= MAX_KEYS {
            return Err(KeystoreError::NotEnoughCapacity);
        }
        let ghost before = self@;
        let ghost after = before.with_key(purpose, material@);
        proof {
            adding_a_key_evolves(before, purpose, material@);
        }
        self.keys[n] = Some(KeyRecord { purpose, material });
        self.key_count = n + 1;
        proof {
            assert(self@ =~= after);
        }
        Ok(KeyId(n as u16))
    }

    /// Stores a new AEAD key, made of random bytes from the caller.
    pub fn generate_aead_key(&mut self, random_bytes: [u8; AEAD_KEY_LEN]) -> (stored: Result<
        KeyId,
        KeystoreError,
    >)
        ensures
            stored == old(self)@.next_key(),
            final(self)@ == match stored {
                Ok(_) => old(self)@.with_key(
                    KeyPurpose::Aead,
                    MaterialView::Aead(random_bytes@),
                ),
                Err(_) => old(self)@,
            },
            stored is Ok <==> old(self)@.keys.len() < 16,
            stored matches Ok(id) ==> {
                &&& id.0 == old(self)@.keys.len()
                &&& final(self)@.keys == old(self)@.keys.push(
                    KeyView { purpose: KeyPurpose::Aead, material: MaterialView::Aead(random_bytes@) },
                )
            },
            stored is Err ==> final(self)@.keys == old(self)@.keys,
            final(self)@.grants == old(self)@.grants,
            final(self)@.revoked == old(self)@.revoked,
            final(self)@.seals == old(self)@.seals,
            final(self)@.wf(),
            old(self)@.evolves_to(final(self)@),
    {
        self.store_key(KeyPurpose::Aead, KeyMaterial::Aead(AeadKey::from_random_bytes(random_bytes)))
    }

    /// Stores a new signing key, made of a random seed from the caller.
    pub fn generate_signing_key(&mut self, random_seed: [u8; SEED_LEN]) -> (stored: Result<
        KeyId,
        KeystoreError,
    >)
        ensures
            stored == old(self)@.next_key(),
            final(self)@ == match stored {
                Ok(_) => old(self)@.with_key(
                    KeyPurpose::Signing,
                    MaterialView::Signing(random_seed@),
                ),
                Err(_) => old(self)@,
            },
            stored is Ok <==> old(self)@.keys.len() < 16,
            stored matches Ok(id) ==> {
                &&& id.0 == old(self)@.keys.len()
                &&& final(self)@.keys == old(self)@.keys.push(
                    KeyView { purpose: KeyPurpose::Signing, material: MaterialView::Signing(random_seed@) },
                )
            },
            stored is Err ==> final(self)@.keys == old(self)@.keys,
            final(self)@.grants == old(self)@.grants,
            final(self)@.revoked == old(self)@.revoked,
            final(self)@.seals == old(self)@.seals,
            stored matches Ok(id) ==> final(self)@.seed(id) == Ok::<Seq<u8>, KeystoreError>(
                random_seed@,
            ),
            final(self)@.wf(),
            old(self)@.evolves_to(final(self)@),
    {
        self.store_key(
            KeyPurpose::Signing,
            KeyMaterial::Signing(SigningKey::from_random_bytes(random_seed)),
        )
    }

    /// Stores a new MAC key, made of random bytes from the caller.
    pub fn generate_mac_key(&mut self, random_bytes: [u8; MAC_KEY_LEN]) -> (stored: Result<
        KeyId,
        KeystoreError,
    >)
        ensures
            stored == old(self)@.next_key(),
            final(self)@ == match stored {
                Ok(_) => old(self)@.with_key(KeyPurpose::Mac, MaterialView::Mac(random_bytes@)),
                Err(_) => old(self)@,
            },
            stored is Ok <==> old(self)@.keys.len() < 16,
            stored matches Ok(id) ==> {
                &&& id.0 == old(self)@.keys.len()
                &&& final(self)@.keys == old(self)@.keys.push(
                    KeyView { purpose: KeyPurpose::Mac, material: MaterialView::Mac(random_bytes@) },
                )
            },
            stored is Err ==> final(self)@.keys == old(self)@.keys,
            final(self)@.grants == old(self)@.grants,
            final(self)@.revoked == old(self)@.revoked,
            final(self)@.seals == old(self)@.seals,
            final(self)@.wf(),
            old(self)@.evolves_to(final(self)@),
    {
        self.store_key(KeyPurpose::Mac, KeyMaterial::Mac(MacKey::from_random_bytes(random_bytes)))
    }

    /// Wipes the material of `key` and leaves a tombstone. Badges granted on it
    /// stay as they are, but whatever they unlock now fails with
    /// [`KeystoreError::KeyDestroyed`].
    pub fn destroy(&mut self, key: KeyId) -> (destroyed: Result<(), KeystoreError>)
        ensures
            match old(self)@.key(key) {
                Ok(_) => destroyed is Ok && final(self)@ == old(self)@.with_destroyed(key),
                Err(e) => destroyed == Err::<(), KeystoreError>(e) && final(self)@ == old(self)@,
            },
            destroyed is Ok <==> key.0 < old(self)@.keys.len(),
            destroyed is Ok ==> final(self)@.keys == old(self)@.keys.update(
                key.0 as int,
                KeyView {
                    purpose: old(self)@.keys[key.0 as int].purpose,
                    material: MaterialView::Destroyed,
                },
            ),
            destroyed is Err ==> final(self)@.keys == old(self)@.keys,
            final(self)@.grants == old(self)@.grants,
            final(self)@.revoked == old(self)@.revoked,
            final(self)@.seals == old(self)@.seals,
            final(self)@.wf(),
            old(self)@.evolves_to(final(self)@),
    {
        proof {
            use_type_invariant(&*self);
            self.slots_hold_a_keystore();
            evolution_is_a_preorder(self@, self@, self@);
        }
        let ghost before = self@;
        let purpose = self.key_record(key)?.purpose;
        proof {
            destroying_a_key_evolves(before, key);
        }
        self.keys[key.0 as usize] = Some(KeyRecord { purpose, material: KeyMaterial::Destroyed });
        proof {
            assert(self@ =~= before.with_destroyed(key));
        }
        Ok(())
    }

    /// Decides whether a badge for `ops` on `key` may be minted, and if so what
    /// to ask of the kernel. Operations that make no sense for the key's
    /// purpose, and keys that are unknown or destroyed, are turned away here
    /// rather than at the badge's first use.
    ///
    /// Nothing is recorded yet: hand the kernel's answer to
    /// [`Keystore::record_key_access`].
    pub fn request_key_access(
        &self,
        key: KeyId,
        ops: KeyOps,
        source_slot: usize,
        scratch_slot: usize,
    ) -> (request: Result<MintRequest, KeystoreError>)
        ensures
            request == match self@.may_grant(key, ops) {
                Ok(()) => Ok(mint_request(key, ops, source_slot, scratch_slot)),
                Err(e) => Err(e),
            },
            request matches Ok(r) ==> {
                &&& r.key == key && r.ops == ops
                &&& r.source_slot == source_slot && r.scratch_slot == scratch_slot
                &&& r.rights == Rights(1u8 | 4u8)
                &&& key.0 < self@.keys.len()
                &&& !(self@.keys[key.0 as int].material is Destroyed)
                &&& self@.grants.len() < 32
            },
    {
        proof {
            use_type_invariant(self);
            assert(1u8 | 4u8 == 5u8) by (bit_vector);
        }
        let record = self.key_record(key)?;
        if let KeyMaterial::Destroyed = &record.material {
            return Err(KeystoreError::KeyDestroyed);
        }
        if !ops.valid_for(record.purpose) {
            return Err(KeystoreError::WrongPurpose);
        }
        if self.grant_count >= MAX_GRANTS {
            return Err(KeystoreError::NotEnoughCapacity);
        }
        Ok(
            MintRequest {
                key,
                ops,
                source_slot,
                scratch_slot,
                rights: Rights::read().union(Rights::grant()),
            },
        )
    }

    /// Takes the kernel's answer to a [`MintRequest`]: records what the minted
    /// badge is good for and returns it, or passes the kernel's error on. A
    /// request that would no longer be made is turned away as
    /// [`Keystore::request_key_access`] does.
    pub fn record_key_access(
        &mut self,
        request: &MintRequest,
        minted: Result<u64, SyscallError>,
    ) -> (recorded: Result<u64, KeystoreError>)
        ensures
            recorded == match (old(self)@.may_grant(request.key, request.ops), minted) {
                (Err(e), _) => Err(e),
                (_, Err(e)) => Err(KeystoreError::Kernel(e)),
                (_, Ok(badge)) => Ok(badge),
            },
            final(self)@ == match recorded {
                Ok(badge) => old(self)@.with_grant(badge, request.key, request.ops),
                Err(_) => old(self)@,
            },
            recorded matches Ok(badge) ==> {
                &&& minted == Ok::<u64, SyscallError>(badge)
                &&& final(self)@.grants == old(self)@.grants.push(
                    GrantView { badge, key: request.key, ops: request.ops },
                )
            },
            recorded is Err ==> final(self)@.grants == old(self)@.grants,
            final(self)@.keys == old(self)@.keys,
            final(self)@.revoked == old(self)@.revoked,
            final(self)@.seals == old(self)@.seals,
            final(self)@.wf(),
            old(self)@.evolves_to(final(self)@),
    {
        proof {
            use_type_invariant(&*self);
            self.slots_hold_a_keystore();
            evolution_is_a_preorder(self@, self@, self@);
        }
        let MintRequest { key, ops, source_slot, scratch_slot, rights: _ } = *request;
        self.request_key_access(key, ops, source_slot, scratch_slot)?;
        let badge: u64 = match minted {
            Ok(badge) => badge,
            Err(e) => return Err(KeystoreError::Kernel(e)),
        };
        let ghost before = self@;
        proof {
            granting_evolves(before, badge, key, ops);
        }
        let n: usize = self.grant_count;
        let ghost slots = self.grants@;
        self.grants[n] = Some(GrantRecord { badge, key, ops, revoked: false });
        self.grant_count = n + 1;
        proof {
            assert forall|b: u64| self@.revoked.contains(b) == before.revoked.contains(b) by {
                an_unmarked_grant_marks_nothing(slots, self.grants@, n as int, b);
            }
            assert(self@.revoked =~= before.revoked);
            assert(self@ =~= before.with_grant(badge, key, ops));
        }
        Ok(badge)
    }

    /// What handing a minted badge to a client that waits on an endpoint ends
    /// in, given how the kernel's transfer ended.
    pub fn deliver_grant(&self, transferred: Result<(), SyscallError>) -> (delivered: Result<
        (),
        KeystoreError,
    >)
        ensures
            delivered == match transferred {
                Ok(()) => Ok(()),
                Err(e) => Err(KeystoreError::Kernel(e)),
            },
    {
        match transferred {
            Ok(()) => Ok(()),
            Err(e) => Err(KeystoreError::Kernel(e)),
        }
    }

    /// What handing a minted badge over in the reply to a client's call ends
    /// in, given how the kernel's reply ended.
    pub fn deliver_grant_via_reply(&self, replied: Result<(), SyscallError>) -> (delivered: Result<
        (),
        KeystoreError,
    >)
        ensures
            delivered == match replied {
                Ok(()) => Ok(()),
                Err(e) => Err(KeystoreError::Kernel(e)),
            },
    {
        self.deliver_grant(replied)
    }

    /// Takes the kernel's answer to a request to revoke `badge`: marks the
    /// badge revoked for good, or passes the kernel's error on. Every operation
    /// asks for this mark before it touches a key.
    pub fn revoke_access(&mut self, badge: u64, revoked: Result<(), SyscallError>) -> (done: Result<
        (),
        KeystoreError,
    >)
        ensures
            done == match revoked {
                Ok(()) => Ok(()),
                Err(e) => Err(KeystoreError::Kernel(e)),
            },
            final(self)@ == match revoked {
                Ok(()) => old(self)@.with_revoked_badge(badge),
                Err(_) => old(self)@,
            },
            revoked is Ok ==> forall|later: KeystoreView, key: KeyId, op: KeyOps|
                final(self)@.evolves_to(later) ==> #[trigger] later.check_access(badge, key, op)
                    == Err::<(), KeystoreError>(KeystoreError::BadgeRevoked),
            forall|other: u64, key: KeyId, op: KeyOps|
                other != badge ==> #[trigger] final(self)@.check_access(other, key, op) == old(
                    self,
                )@.check_access(other, key, op),
            forall|other: u64|
                #[trigger] final(self)@.revoked.contains(other) <==> (revoked is Ok && other
                    == badge) || old(self)@.revoked.contains(other),
            final(self)@.keys == old(self)@.keys,
            final(self)@.grants == old(self)@.grants,
            final(self)@.seals == old(self)@.seals,
            final(self)@.wf(),
            old(self)@.evolves_to(final(self)@),
    {
        proof {
            use_type_invariant(&*self);
            self.slots_hold_a_keystore();
            evolution_is_a_preorder(self@, self@, self@);
        }
        if let Err(e) = revoked {
            return Err(KeystoreError::Kernel(e));
        }
        let ghost before = self@;
        let ghost after = before.with_revoked_badge(badge);
        let ghost slots = self.grants@;
        proof {
            revoking_a_badge_evolves(before, badge);
            assert forall|later: KeystoreView, key: KeyId, op: KeyOps|
                after.evolves_to(later) implies #[trigger] later.check_access(badge, key, op)
                == Err::<(), KeystoreError>(KeystoreError::BadgeRevoked) by {
                revocation_is_final(before, later, badge);
            }
            assert forall|other: u64, key: KeyId, op: KeyOps| other != badge implies
                #[trigger] after.check_access(other, key, op) == before.check_access(
                other,
                key,
                op,
            ) by {
                revocation_touches_no_other_badge(before, badge, other, key, op);
            }
        }
        match self.find_grant(badge) {
            Some(at) => {
                if let Some(grant) = self.grants[at] {
                    proof {
                        position_is_first(before.badges(), badge);
                        assert(before.badges()[at as int] == badge);
                    }
                    self.grants[at] = Some(
                        GrantRecord {
                            badge: grant.badge,
                            key: grant.key,
                            ops: grant.ops,
                            revoked: true,
                        },
                    );
                }
                proof {
                    assert forall|b: u64| self@.revoked.contains(b) == after.revoked.contains(b) by {
                        marking_a_grant_marks_its_badge(
                            slots,
                            self.grants@,
                            self.grant_count as int,
                            at as int,
                            b,
                        );
                    }
                }
            },
            None => {
                if !self.is_stray(badge) {
                    let mut strays: Vec<u64> = Vec::new();
                    std::mem::swap(&mut strays, &mut self.strays);
                    let ghost earlier = strays@;
                    strays.push(badge);
                    proof {
                        assert(strays@[earlier.len() as int] == badge);
                        assert forall|b: u64| strays@.contains(b) == (earlier.contains(b) || b
                            == badge) by {
                            if earlier.contains(b) {
                                let i = earlier.index_of(b);
                                assert(strays@[i] == b);
                            }
                        }
                    }
                    std::mem::swap(&mut strays, &mut self.strays);
                }
            },
        }
        proof {
            assert(self@.revoked =~= after.revoked);
            assert(self@ =~= after);
        }
        Ok(())
    }

    /// Issues a root token for `identifier` under the MAC key `key`, and
    /// records which key it hangs on, so that [`Keystore::unseal`] can
    /// recompute the chain. `badge` must have been granted MACs for `key`.
    pub fn seal(
        &mut self,
        badge: u64,
        key: KeyId,
        identifier: [u8; IDENTIFIER_LEN],
        caveats: &[Caveat],
    ) -> (sealed: Result<SealedToken, KeystoreError>)
        ensures
            match old(self)@.seal_outcome(badge, key, identifier@, caveats@) {
                Ok(t) => {
                    &&& sealed matches Ok(token) && token@ == t
                    &&& final(self)@ == old(self)@.with_seal(identifier@, key)
                },
                Err(e) => {
                    &&& sealed == Err::<SealedToken, KeystoreError>(e)
                    &&& final(self)@ == old(self)@
                },
            },
            sealed matches Ok(token) ==> {
                &&& token@.identifier == identifier@ && token@.caveats == caveats@
                &&& caveats@.len() <= 4
                &&& key.0 < old(self)@.keys.len()
                &&& old(self)@.keys[key.0 as int].material matches MaterialView::Mac(root)
                &&& token@.mac == chain(root, identifier@, caveats@)
                &&& final(self)@.seals == old(self)@.seals.push(
                    SealView { identifier: identifier@, key, revoked: false },
                )
            },
            sealed is Err ==> final(self)@.seals == old(self)@.seals,
            final(self)@.keys == old(self)@.keys,
            final(self)@.grants == old(self)@.grants,
            final(self)@.revoked == old(self)@.revoked,
            final(self)@.wf(),
            old(self)@.evolves_to(final(self)@),
    {
        proof {
            use_type_invariant(&*self);
            self.slots_hold_a_keystore();
            evolution_is_a_preorder(self@, self@, self@);
        }
        let ghost before = self@;
        let root = self.mac_key(badge, key)?;
        let token = match seal(root, identifier, caveats) {
            Ok(token) => token,
            Err(_) => return Err(KeystoreError::TooManyCaveats),
        };
        let n: usize = self.seal_count;
        if n >= MAX_SEALS {
            return Err(KeystoreError::NotEnoughCapacity);
        }
        proof {
            sealing_evolves(before, badge, key, identifier@, caveats@);
        }
        self.seals[n] = Some(SealRecord { identifier, key, revoked: false });
        self.seal_count = n + 1;
        proof {
            assert(self@ =~= before.with_seal(identifier@, key));
        }
        Ok(token)
    }

    /// Revokes every token ever sealed under `identifier`, and everything
    /// attenuated from any of them.
    pub fn revoke_seal(&mut self, identifier: &[u8; IDENTIFIER_LEN]) -> (revoked: Result<
        (),
        KeystoreError,
    >)
        ensures
            revoked == match old(self)@.seal_record(identifier@) {
                Some(_) => Ok::<(), KeystoreError>(()),
                None => Err(KeystoreError::UnknownSeal),
            },
            final(self)@ == old(self)@.with_revoked_seal(identifier@),
            final(self)@.keys == old(self)@.keys,
            final(self)@.grants == old(self)@.grants,
            final(self)@.revoked == old(self)@.revoked,
            final(self)@.seals.len() == old(self)@.seals.len(),
            final(self)@.wf(),
            old(self)@.evolves_to(final(self)@),
    {
        proof {
            use_type_invariant(&*self);
            self.slots_hold_a_keystore();
            evolution_is_a_preorder(self@, self@, self@);
        }
        let ghost before = self@;
        proof {
            revoking_a_seal_evolves(before, identifier@);
        }
        let at: usize = match self.find_seal(identifier) {
            Some(i) => i,
            None => return Err(KeystoreError::UnknownSeal),
        };
        if let Some(record) = self.seals[at] {
            self.seals[at] = Some(
                SealRecord { identifier: record.identifier, key: record.key, revoked: true },
            );
        }
        proof {
            assert(self@ =~= before.with_revoked_seal(identifier@));
        }
        Ok(())
    }
}

/// Filling the next slot with a grant that is not marked marks no badge.
proof fn an_unmarked_grant_marks_nothing(
    slots: Seq<Option<GrantRecord>>,
    filled: Seq<Option<GrantRecord>>,
    count: int,
    badge: u64,
)
    requires
        0 <= count < slots.len(),
        filled.len() == slots.len(),
        !filled[count]->0.revoked,
        forall|i: int| 0 <= i < count ==> #[trigger] filled[i] == slots[i],
    ensures
        (exists|i: int|
            0 <= i < count + 1 && (#[trigger] filled[i])->0.badge == badge && filled[i]->0.revoked)
            <==> (exists|i: int|
            0 <= i < count && (#[trigger] slots[i])->0.badge == badge && slots[i]->0.revoked),
{
    if exists|i: int|
        0 <= i < count + 1 && (#[trigger] filled[i])->0.badge == badge && filled[i]->0.revoked {
        let i = choose|i: int|
            0 <= i < count + 1 && (#[trigger] filled[i])->0.badge == badge && filled[i]->0.revoked;
        assert(slots[i]->0.badge == badge);
    }
    if exists|i: int|
        0 <= i < count && (#[trigger] slots[i])->0.badge == badge && slots[i]->0.revoked {
        let i = choose|i: int|
            0 <= i < count && (#[trigger] slots[i])->0.badge == badge && slots[i]->0.revoked;
        assert(filled[i]->0.badge == badge);
    }
}

/// Marking one slot adds its badge to those marked, and no other.
proof fn marking_a_grant_marks_its_badge(
    slots: Seq<Option<GrantRecord>>,
    marked: Seq<Option<GrantRecord>>,
    count: int,
    at: int,
    badge: u64,
)
    requires
        0 <= at < count <= slots.len(),
        marked.len() == slots.len(),
        marked[at]->0.revoked,
        marked[at]->0.badge == slots[at]->0.badge,
        forall|i: int| 0 <= i < count && i != at ==> #[trigger] marked[i] == slots[i],
    ensures
        (exists|i: int|
            0 <= i < count && (#[trigger] marked[i])->0.badge == badge && marked[i]->0.revoked)
            <==> badge == slots[at]->0.badge || (exists|i: int|
            0 <= i < count && (#[trigger] slots[i])->0.badge == badge && slots[i]->0.revoked),
{
    if exists|i: int|
        0 <= i < count && (#[trigger] marked[i])->0.badge == badge && marked[i]->0.revoked {
        let i = choose|i: int|
            0 <= i < count && (#[trigger] marked[i])->0.badge == badge && marked[i]->0.revoked;
        assert(i == at || marked[i] == slots[i]);
    }
    if exists|i: int|
        0 <= i < count && (#[trigger] slots[i])->0.badge == badge && slots[i]->0.revoked {
        let i = choose|i: int|
            0 <= i < count && (#[trigger] slots[i])->0.badge == badge && slots[i]->0.revoked;
        assert(i == at || marked[i] == slots[i]);
        assert(marked[i]->0.badge == badge);
    }
    if badge == slots[at]->0.badge {
        assert(marked[at]->0.badge == badge);
    }
}

} // verus!
