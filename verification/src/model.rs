//! What a keystore is, mathematically: three append-only sequences, a set of
//! revoked badges that only grows, and the decisions that follow from them.
//!
//! [`KeystoreView`] is the view of a [`Keystore`](crate::Keystore). Each
//! operation's contract says that it returns what the function of the same
//! subject here gives, and how the sequences change.

use vstd::prelude::*;

use crate::aead::{within_cipher_limit, xchacha20poly1305_open, xchacha20poly1305_seal};
use crate::hash::blake3_keyed_hash;
use crate::kernel::{MintRequest, Rights};
use crate::keys::{
    admitted_ops, KeyId, KeyOps, KeyPurpose, KeystoreError, OPS_DECRYPT, OPS_ENCRYPT, OPS_MAC,
    OPS_SIGN,
};
use crate::sealed::{root_token, Caveat, TokenView, MAX_CAVEATS};
use crate::signing::{ed25519_accepts, ed25519_public_key, ed25519_signature};

verus! {

/// How many keys a keystore can ever hold; destroyed ones count.
pub const MAX_KEYS: usize = 16;

/// How many badges a keystore can ever grant; revoked ones count.
pub const MAX_GRANTS: usize = 32;

/// How many root tokens a keystore can ever seal; revoked ones count.
pub const MAX_SEALS: usize = 16;

/// The rights that every minted badge carries: to read and to be handed on.
pub const BADGE_RIGHTS: u8 = 5;

/// The secret bytes of a key, or the tombstone of a destroyed one.
pub enum MaterialView {
    Aead(Seq<u8>),
    Signing(Seq<u8>),
    Mac(Seq<u8>),
    Destroyed,
}

/// A key: what it is for, and what it is made of.
pub struct KeyView {
    pub purpose: KeyPurpose,
    pub material: MaterialView,
}

/// A granted badge: which key it names, and which operations it allows.
pub struct GrantView {
    pub badge: u64,
    pub key: KeyId,
    pub ops: KeyOps,
}

/// A sealed root token: under which identifier, with which root key, and
/// whether the identifier has been revoked.
pub struct SealView {
    pub identifier: Seq<u8>,
    pub key: KeyId,
    pub revoked: bool,
}

/// A keystore. A key's name is its place in `keys`; `revoked` holds every badge
/// that was ever revoked, granted or not.
#[verifier::ext_equal]
pub struct KeystoreView {
    pub keys: Seq<KeyView>,
    pub grants: Seq<GrantView>,
    pub revoked: Set<u64>,
    pub seals: Seq<SealView>,
}

/// The first place at which `x` stands in `s`.
pub open spec fn position<A>(s: Seq<A>, x: A) -> Option<int>
    decreases s.len(),
{
    if s.len() == 0 {
        None
    } else {
        match position(s.drop_last(), x) {
            Some(i) => Some(i),
            None => if s.last() == x {
                Some(s.len() - 1)
            } else {
                None
            },
        }
    }
}

impl KeyView {
    /// Whether the material is of the kind that the purpose asks for, or gone.
    pub open spec fn wf(self) -> bool {
        match self.material {
            MaterialView::Aead(_) => self.purpose == KeyPurpose::Aead,
            MaterialView::Signing(_) => self.purpose == KeyPurpose::Signing,
            MaterialView::Mac(_) => self.purpose == KeyPurpose::Mac,
            MaterialView::Destroyed => true,
        }
    }
}

impl KeystoreView {
    /// The keystore that holds nothing.
    pub open spec fn empty() -> KeystoreView {
        KeystoreView {
            keys: Seq::empty(),
            grants: Seq::empty(),
            revoked: Set::empty(),
            seals: Seq::empty(),
        }
    }

    /// Whether this is a keystore: within its capacity, with material that
    /// fits each key's purpose, badges that name a key and allow only what
    /// that key's purpose admits, and sealed tokens that hang on MAC keys.
    pub open spec fn wf(self) -> bool {
        &&& self.keys.len() <= MAX_KEYS
        &&& self.grants.len() <= MAX_GRANTS
        &&& self.seals.len() <= MAX_SEALS
        &&& forall|i: int| 0 <= i < self.keys.len() ==> (#[trigger] self.keys[i]).wf()
        &&& forall|i: int|
            0 <= i < self.grants.len() ==> {
                let g = #[trigger] self.grants[i];
                g.key.0 < self.keys.len() && admitted_ops(
                    self.keys[g.key.0 as int].purpose,
                ).covers(g.ops)
            }
        &&& forall|i: int|
            0 <= i < self.seals.len() ==> {
                let s = #[trigger] self.seals[i];
                s.key.0 < self.keys.len() && self.keys[s.key.0 as int].purpose == KeyPurpose::Mac
            }
    }

    /// The badges, in the order they were granted.
    pub open spec fn badges(self) -> Seq<u64> {
        self.grants.map_values(|g: GrantView| g.badge)
    }

    /// The identifiers, in the order they were sealed.
    pub open spec fn identifiers(self) -> Seq<Seq<u8>> {
        self.seals.map_values(|s: SealView| s.identifier)
    }

    /// The grant that a badge stands for: the first under it.
    pub open spec fn grant(self, badge: u64) -> Option<GrantView> {
        match position(self.badges(), badge) {
            Some(i) => Some(self.grants[i]),
            None => None,
        }
    }

    /// The record that an identifier stands for: the first under it.
    pub open spec fn seal_record(self, identifier: Seq<u8>) -> Option<SealView> {
        match position(self.identifiers(), identifier) {
            Some(i) => Some(self.seals[i]),
            None => None,
        }
    }

    /// Whether a badge is no longer good. One that was never granted is not
    /// good either.
    pub open spec fn is_revoked(self, badge: u64) -> bool {
        self.grant(badge) is None || self.revoked.contains(badge)
    }

    /// Whether `badge` may do `op` to `key`: it is not revoked, it names that
    /// key, and it allows that operation, asked in this order.
    pub open spec fn check_access(self, badge: u64, key: KeyId, op: KeyOps) -> Result<
        (),
        KeystoreError,
    > {
        match self.grant(badge) {
            None => Err(KeystoreError::BadgeRevoked),
            Some(g) => if self.revoked.contains(badge) {
                Err(KeystoreError::BadgeRevoked)
            } else if g.key != key {
                Err(KeystoreError::WrongKey)
            } else if !g.ops.covers(op) {
                Err(KeystoreError::OpNotGranted)
            } else {
                Ok(())
            },
        }
    }

    /// The key of a name.
    pub open spec fn key(self, id: KeyId) -> Result<KeyView, KeystoreError> {
        if id.0 < self.keys.len() {
            Ok(self.keys[id.0 as int])
        } else {
            Err(KeystoreError::NoSuchKey)
        }
    }

    /// The AEAD key that `badge` may use for `op`.
    pub open spec fn aead_key(self, badge: u64, id: KeyId, op: KeyOps) -> Result<
        Seq<u8>,
        KeystoreError,
    > {
        match (self.check_access(badge, id, op), self.key(id)) {
            (Err(e), _) => Err(e),
            (_, Err(e)) => Err(e),
            (_, Ok(k)) => match k.material {
                MaterialView::Aead(bytes) => Ok(bytes),
                MaterialView::Destroyed => Err(KeystoreError::KeyDestroyed),
                _ => Err(KeystoreError::WrongPurpose),
            },
        }
    }

    /// The seed of a signing key. No badge is asked for.
    pub open spec fn seed(self, id: KeyId) -> Result<Seq<u8>, KeystoreError> {
        match self.key(id) {
            Err(e) => Err(e),
            Ok(k) => match k.material {
                MaterialView::Signing(seed) => Ok(seed),
                MaterialView::Destroyed => Err(KeystoreError::KeyDestroyed),
                _ => Err(KeystoreError::WrongPurpose),
            },
        }
    }

    /// The MAC key that `badge` may use.
    pub open spec fn mac_key(self, badge: u64, id: KeyId) -> Result<Seq<u8>, KeystoreError> {
        match (self.check_access(badge, id, KeyOps(OPS_MAC)), self.key(id)) {
            (Err(e), _) => Err(e),
            (_, Err(e)) => Err(e),
            (_, Ok(k)) => match k.material {
                MaterialView::Mac(bytes) => Ok(bytes),
                MaterialView::Destroyed => Err(KeystoreError::KeyDestroyed),
                _ => Err(KeystoreError::WrongPurpose),
            },
        }
    }

    /// What encrypting `plaintext` gives: ciphertext and tag.
    pub open spec fn encrypt_outcome(
        self,
        badge: u64,
        id: KeyId,
        nonce: Seq<u8>,
        aad: Seq<u8>,
        plaintext: Seq<u8>,
    ) -> Result<(Seq<u8>, Seq<u8>), KeystoreError> {
        match self.aead_key(badge, id, KeyOps(OPS_ENCRYPT)) {
            Err(e) => Err(e),
            Ok(k) => if within_cipher_limit(plaintext.len()) {
                Ok(xchacha20poly1305_seal(k, nonce, aad, plaintext))
            } else {
                Err(KeystoreError::CryptoFailure)
            },
        }
    }

    /// What decrypting `ciphertext` against `tag` gives: the plaintext.
    pub open spec fn decrypt_outcome(
        self,
        badge: u64,
        id: KeyId,
        nonce: Seq<u8>,
        aad: Seq<u8>,
        ciphertext: Seq<u8>,
        tag: Seq<u8>,
    ) -> Result<Seq<u8>, KeystoreError> {
        match self.aead_key(badge, id, KeyOps(OPS_DECRYPT)) {
            Err(e) => Err(e),
            Ok(k) => match xchacha20poly1305_open(k, nonce, aad, ciphertext, tag) {
                Some(plaintext) => Ok(plaintext),
                None => Err(KeystoreError::CryptoFailure),
            },
        }
    }

    /// What signing `message` gives.
    pub open spec fn sign_outcome(self, badge: u64, id: KeyId, message: Seq<u8>) -> Result<
        Seq<u8>,
        KeystoreError,
    > {
        match (self.check_access(badge, id, KeyOps(OPS_SIGN)), self.seed(id)) {
            (Err(e), _) => Err(e),
            (_, Err(e)) => Err(e),
            (_, Ok(seed)) => Ok(ed25519_signature(seed, message)),
        }
    }

    /// What verifying `signature` of `message` gives.
    pub open spec fn verify_outcome(self, id: KeyId, message: Seq<u8>, signature: Seq<u8>) -> Result<
        (),
        KeystoreError,
    > {
        match self.seed(id) {
            Err(e) => Err(e),
            Ok(seed) => if ed25519_accepts(ed25519_public_key(seed), message, signature) {
                Ok(())
            } else {
                Err(KeystoreError::CryptoFailure)
            },
        }
    }

    /// What the MAC of `message` is.
    pub open spec fn mac_outcome(self, badge: u64, id: KeyId, message: Seq<u8>) -> Result<
        Seq<u8>,
        KeystoreError,
    > {
        match self.mac_key(badge, id) {
            Err(e) => Err(e),
            Ok(k) => Ok(blake3_keyed_hash(k, message)),
        }
    }

    /// What verifying `mac` of `message` gives.
    pub open spec fn verify_mac_outcome(
        self,
        badge: u64,
        id: KeyId,
        message: Seq<u8>,
        mac: Seq<u8>,
    ) -> Result<(), KeystoreError> {
        match self.mac_outcome(badge, id, message) {
            Err(e) => Err(e),
            Ok(m) => if m == mac {
                Ok(())
            } else {
                Err(KeystoreError::CryptoFailure)
            },
        }
    }

    /// The root token that sealing gives.
    pub open spec fn seal_outcome(
        self,
        badge: u64,
        id: KeyId,
        identifier: Seq<u8>,
        caveats: Seq<Caveat>,
    ) -> Result<TokenView, KeystoreError> {
        match self.mac_key(badge, id) {
            Err(e) => Err(e),
            Ok(root) => if caveats.len() > MAX_CAVEATS {
                Err(KeystoreError::TooManyCaveats)
            } else if self.seals.len() >= MAX_SEALS {
                Err(KeystoreError::NotEnoughCapacity)
            } else {
                Ok(root_token(root, identifier, caveats))
            },
        }
    }

    /// What unsealing `token` for `rights` at time `now` gives.
    pub open spec fn unseal_outcome(
        self,
        badge: u64,
        token: TokenView,
        now: Option<u64>,
        rights: Rights,
    ) -> Result<(), KeystoreError> {
        match self.seal_record(token.identifier) {
            None => Err(KeystoreError::UnknownSeal),
            Some(record) => if record.revoked {
                Err(KeystoreError::SealRevoked)
            } else {
                match self.mac_key(badge, record.key) {
                    Err(e) => Err(e),
                    Ok(root) => if !token.genuine(root) {
                        Err(KeystoreError::TokenInvalid)
                    } else if !token.admits(now, rights) {
                        Err(KeystoreError::CaveatNotSatisfied)
                    } else {
                        Ok(())
                    },
                }
            },
        }
    }

    /// The name that the next key gets.
    pub open spec fn next_key(self) -> Result<KeyId, KeystoreError> {
        if self.keys.len() < MAX_KEYS {
            Ok(KeyId(self.keys.len() as u16))
        } else {
            Err(KeystoreError::NotEnoughCapacity)
        }
    }

    /// Whether a badge for `ops` on `id` may be minted.
    pub open spec fn may_grant(self, id: KeyId, ops: KeyOps) -> Result<(), KeystoreError> {
        match self.key(id) {
            Err(e) => Err(e),
            Ok(k) => if k.material is Destroyed {
                Err(KeystoreError::KeyDestroyed)
            } else if !admitted_ops(k.purpose).covers(ops) {
                Err(KeystoreError::WrongPurpose)
            } else if self.grants.len() >= MAX_GRANTS {
                Err(KeystoreError::NotEnoughCapacity)
            } else {
                Ok(())
            },
        }
    }

    /// The keystore with one more key.
    pub open spec fn with_key(self, purpose: KeyPurpose, material: MaterialView) -> KeystoreView {
        KeystoreView { keys: self.keys.push(KeyView { purpose, material }), ..self }
    }

    /// The keystore with the key `id` destroyed.
    pub open spec fn with_destroyed(self, id: KeyId) -> KeystoreView {
        let i = id.0 as int;
        KeystoreView {
            keys: self.keys.update(
                i,
                KeyView { purpose: self.keys[i].purpose, material: MaterialView::Destroyed },
            ),
            ..self
        }
    }

    /// The keystore with one more badge.
    pub open spec fn with_grant(self, badge: u64, key: KeyId, ops: KeyOps) -> KeystoreView {
        KeystoreView {
            grants: self.grants.push(GrantView { badge, key, ops }),
            ..self
        }
    }

    /// The keystore with `badge` revoked.
    pub open spec fn with_revoked_badge(self, badge: u64) -> KeystoreView {
        KeystoreView { revoked: self.revoked.insert(badge), ..self }
    }

    /// The keystore with one more sealed root token.
    pub open spec fn with_seal(self, identifier: Seq<u8>, key: KeyId) -> KeystoreView {
        KeystoreView {
            seals: self.seals.push(SealView { identifier, key, revoked: false }),
            ..self
        }
    }

    /// The keystore with `identifier` revoked.
    pub open spec fn with_revoked_seal(self, identifier: Seq<u8>) -> KeystoreView {
        match position(self.identifiers(), identifier) {
            None => self,
            Some(i) => KeystoreView {
                seals: self.seals.update(i, SealView { revoked: true, ..self.seals[i] }),
                ..self
            },
        }
    }

    /// Whether this keystore can have become `later`. Keys, badges and sealed
    /// tokens stay where they are and mean what they meant. A key may lose its
    /// material, never change it; a badge or identifier may be revoked, never
    /// restored.
    pub open spec fn evolves_to(self, later: KeystoreView) -> bool {
        &&& self.keys.len() <= later.keys.len()
        &&& self.grants.len() <= later.grants.len()
        &&& self.seals.len() <= later.seals.len()
        &&& forall|i: int|
            0 <= i < self.keys.len() ==> {
                let (k, l) = (self.keys[i], #[trigger] later.keys[i]);
                l.purpose == k.purpose && (l.material == k.material || l.material is Destroyed)
            }
        &&& forall|i: int|
            0 <= i < self.grants.len() ==> {
                let (g, l) = (self.grants[i], #[trigger] later.grants[i]);
                l == g
            }
        &&& forall|badge: u64|
            self.revoked.contains(badge) ==> #[trigger] later.revoked.contains(badge)
        &&& forall|i: int|
            0 <= i < self.seals.len() ==> {
                let (s, l) = (self.seals[i], #[trigger] later.seals[i]);
                l.identifier == s.identifier && l.key == s.key && (s.revoked ==> l.revoked)
            }
    }
}

/// The request that goes to the kernel for a badge on `key`.
pub open spec fn mint_request(
    key: KeyId,
    ops: KeyOps,
    source_slot: usize,
    scratch_slot: usize,
) -> MintRequest {
    MintRequest { key, ops, source_slot, scratch_slot, rights: Rights(BADGE_RIGHTS) }
}

/// `position` is the first place, and there is none exactly where `x` does not
/// occur.
pub proof fn position_is_first<A>(s: Seq<A>, x: A)
    ensures
        match position(s, x) {
            Some(i) => 0 <= i < s.len() && s[i] == x && forall|j: int|
                0 <= j < i ==> #[trigger] s[j] != x,
            None => forall|j: int| 0 <= j < s.len() ==> #[trigger] s[j] != x,
        },
    decreases s.len(),
{
    if s.len() > 0 {
        let front = s.drop_last();
        position_is_first(front, x);
        assert(forall|j: int| 0 <= j < front.len() ==> #[trigger] s[j] == front[j]);
    }
}

/// A place that holds `x`, with no `x` before it, is its position.
pub proof fn first_is_position<A>(s: Seq<A>, x: A, i: int)
    requires
        0 <= i < s.len(),
        s[i] == x,
        forall|j: int| 0 <= j < i ==> #[trigger] s[j] != x,
    ensures
        position(s, x) == Some(i),
{
    position_is_first(s, x);
    if let Some(p) = position(s, x) {
        if p < i {
            assert(s[p] != x);
        }
        if i < p {
            assert(s[i] != x);
        }
    }
}

} // verus!
