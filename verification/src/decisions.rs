//! What a keystore decides, said of its keys, badges and tokens one by one and
//! of the primitives themselves: which badge may do what, which bytes an
//! operation works on, and what each step leaves behind.

use vstd::prelude::*;

use crate::aead::{xchacha20poly1305_open, xchacha20poly1305_seal};
use crate::hash::blake3_keyed_hash;
use crate::kernel::Rights;
use crate::keys::{admitted_operations_by_bits, KeyId, KeyOps, KeyPurpose, KeystoreError};
use crate::model::{
    first_is_position, mint_request, position, position_is_first, GrantView, KeyView, KeystoreView,
    MaterialView, SealView, MAX_GRANTS, MAX_KEYS, MAX_SEALS,
};
use crate::sealed::{a_token_admits_what_every_caveat_allows, chain, Caveat, TokenView};
use crate::signing::{ed25519_accepts, ed25519_public_key, ed25519_signature};

verus! {

/// A badge stands for the first grant under it, and that grant decides what it
/// may do: unless the badge is revoked, it may do to the key that the grant names
/// what the grant's bits say, and nothing else.
pub proof fn the_first_grant_decides(
    ks: KeystoreView,
    badge: u64,
    at: int,
    key: KeyId,
    op: KeyOps,
)
    requires
        0 <= at < ks.grants.len(),
        ks.grants[at].badge == badge,
        forall|j: int| 0 <= j < at ==> (#[trigger] ks.grants[j]).badge != badge,
    ensures
        ks.grant(badge) == Some(ks.grants[at]),
        ks.is_revoked(badge) <==> ks.revoked.contains(badge),
        ks.check_access(badge, key, op) == if ks.revoked.contains(badge) {
            Err(KeystoreError::BadgeRevoked)
        } else if ks.grants[at].key.0 != key.0 {
            Err(KeystoreError::WrongKey)
        } else if ks.grants[at].ops.0 & op.0 != op.0 {
            Err(KeystoreError::OpNotGranted)
        } else {
            Ok(())
        },
{
    let badges = ks.badges();
    assert forall|j: int| 0 <= j < at implies #[trigger] badges[j] != badge by {
        assert(badges[j] == ks.grants[j].badge);
    }
    first_is_position(badges, badge, at);
}

/// A badge under which there is no grant may do nothing, and reads as revoked.
pub proof fn without_a_grant_there_is_no_access(
    ks: KeystoreView,
    badge: u64,
    key: KeyId,
    op: KeyOps,
)
    requires
        forall|j: int| 0 <= j < ks.grants.len() ==> (#[trigger] ks.grants[j]).badge != badge,
    ensures
        ks.grant(badge) is None,
        ks.is_revoked(badge),
        ks.check_access(badge, key, op) == Err::<(), KeystoreError>(KeystoreError::BadgeRevoked),
{
    position_is_first(ks.badges(), badge);
    if let Some(i) = position(ks.badges(), badge) {
        assert(ks.grants[i].badge == badge);
    }
}

/// Access is only ever had through a grant: there is one, the first under the
/// badge, that names the key and has every bit of the operation, and the badge
/// is not revoked.
pub proof fn access_comes_from_a_grant(
    ks: KeystoreView,
    badge: u64,
    key: KeyId,
    op: KeyOps,
)
    ensures
        ks.check_access(badge, key, op) is Ok <==> !ks.revoked.contains(badge) && exists|i: int|
            0 <= i < ks.grants.len() && (#[trigger] ks.grants[i]).badge == badge
                && ks.grants[i].key == key && ks.grants[i].ops.0 & op.0 == op.0 && forall|j: int|
                0 <= j < i ==> (#[trigger] ks.grants[j]).badge != badge,
{
    position_is_first(ks.badges(), badge);
    match position(ks.badges(), badge) {
        Some(p) => {
            assert forall|j: int| 0 <= j < p implies (#[trigger] ks.grants[j]).badge != badge by {
                assert(ks.badges()[j] == ks.grants[j].badge);
            }
            assert(ks.grants[p].badge == badge);
            the_first_grant_decides(ks, badge, p, key, op);
        },
        None => {
            assert forall|j: int| 0 <= j < ks.grants.len() implies (
            #[trigger] ks.grants[j]).badge != badge by {
                assert(ks.badges()[j] == ks.grants[j].badge);
            }
            without_a_grant_there_is_no_access(ks, badge, key, op);
        },
    }
}

/// A key's name is its place, and there is no key at any other name.
pub proof fn a_name_is_a_place(ks: KeystoreView, id: KeyId)
    ensures
        id.0 < ks.keys.len() ==> ks.key(id) == Ok::<KeyView, KeystoreError>(
            ks.keys[id.0 as int],
        ),
        id.0 >= ks.keys.len() ==> ks.key(id) == Err::<KeyView, KeystoreError>(
            KeystoreError::NoSuchKey,
        ),
{
}

/// What a badge gets at is the material of the very key that it asked for, of
/// the kind that the operation needs, and only with access.
pub proof fn the_bytes_used_are_those_of_the_key(
    ks: KeystoreView,
    badge: u64,
    id: KeyId,
    op: KeyOps,
    bytes: Seq<u8>,
)
    ensures
        ks.aead_key(badge, id, op) == Ok::<Seq<u8>, KeystoreError>(bytes) <==> ks.check_access(
            badge,
            id,
            op,
        ) is Ok && id.0 < ks.keys.len() && ks.keys[id.0 as int].material == MaterialView::Aead(
            bytes,
        ),
        ks.mac_key(badge, id) == Ok::<Seq<u8>, KeystoreError>(bytes) <==> ks.check_access(
            badge,
            id,
            KeyOps(8),
        ) is Ok && id.0 < ks.keys.len() && ks.keys[id.0 as int].material == MaterialView::Mac(
            bytes,
        ),
        ks.seed(id) == Ok::<Seq<u8>, KeystoreError>(bytes) <==> id.0 < ks.keys.len()
            && ks.keys[id.0 as int].material == MaterialView::Signing(bytes),
{
}

/// Why a key cannot be used: first that the badge may not, then that there is no
/// such key, then that it is destroyed, then that it is of another kind.
pub proof fn why_a_key_cannot_be_used(ks: KeystoreView, badge: u64, id: KeyId, op: KeyOps)
    ensures
        ks.check_access(badge, id, op) matches Err(e) ==> ks.aead_key(badge, id, op) == Err::<
            Seq<u8>,
            KeystoreError,
        >(e),
        ks.check_access(badge, id, KeyOps(8)) matches Err(e) ==> ks.mac_key(badge, id) == Err::<
            Seq<u8>,
            KeystoreError,
        >(e),
        ks.check_access(badge, id, op) is Ok && id.0 >= ks.keys.len() ==> ks.aead_key(
            badge,
            id,
            op,
        ) == Err::<Seq<u8>, KeystoreError>(KeystoreError::NoSuchKey),
        ks.check_access(badge, id, KeyOps(8)) is Ok && id.0 >= ks.keys.len() ==> ks.mac_key(
            badge,
            id,
        ) == Err::<Seq<u8>, KeystoreError>(KeystoreError::NoSuchKey),
        id.0 >= ks.keys.len() ==> ks.seed(id) == Err::<Seq<u8>, KeystoreError>(
            KeystoreError::NoSuchKey,
        ),
        id.0 < ks.keys.len() ==> ({
            let m = ks.keys[id.0 as int].material;
            let gone = if m is Destroyed {
                KeystoreError::KeyDestroyed
            } else {
                KeystoreError::WrongPurpose
            };
            &&& ks.check_access(badge, id, op) is Ok && !(m is Aead) ==> ks.aead_key(
                badge,
                id,
                op,
            ) == Err::<Seq<u8>, KeystoreError>(gone)
            &&& ks.check_access(badge, id, KeyOps(8)) is Ok && !(m is Mac) ==> ks.mac_key(
                badge,
                id,
            ) == Err::<Seq<u8>, KeystoreError>(gone)
            &&& !(m is Signing) ==> ks.seed(id) == Err::<Seq<u8>, KeystoreError>(gone)
        }),
{
}

/// Encryption at the keystore is the cipher's, with the key's own bytes and the
/// caller's nonce, associated data and plaintext, each as it was given.
pub proof fn encryption_is_the_ciphers(
    ks: KeystoreView,
    badge: u64,
    id: KeyId,
    nonce: Seq<u8>,
    aad: Seq<u8>,
    data: Seq<u8>,
    tag: Seq<u8>,
)
    ensures
        ks.aead_key(badge, id, KeyOps(1)) matches Ok(k) ==> ks.encrypt_outcome(
            badge,
            id,
            nonce,
            aad,
            data,
        ) == if data.len() < 274_877_906_880 {
            Ok(xchacha20poly1305_seal(k, nonce, aad, data))
        } else {
            Err(KeystoreError::CryptoFailure)
        },
        ks.aead_key(badge, id, KeyOps(1)) matches Err(e) ==> ks.encrypt_outcome(
            badge,
            id,
            nonce,
            aad,
            data,
        ) == Err::<(Seq<u8>, Seq<u8>), KeystoreError>(e),
        ks.aead_key(badge, id, KeyOps(2)) matches Ok(k) ==> ks.decrypt_outcome(
            badge,
            id,
            nonce,
            aad,
            data,
            tag,
        ) == match xchacha20poly1305_open(k, nonce, aad, data, tag) {
            Some(plaintext) => Ok::<Seq<u8>, KeystoreError>(plaintext),
            None => Err(KeystoreError::CryptoFailure),
        },
        ks.aead_key(badge, id, KeyOps(2)) matches Err(e) ==> ks.decrypt_outcome(
            badge,
            id,
            nonce,
            aad,
            data,
            tag,
        ) == Err::<Seq<u8>, KeystoreError>(e),
{
    crate::aead::the_cipher_takes_these_lengths(data.len());
}

/// Signing at the keystore is Ed25519's, of the very message, under the key's own
/// seed; verifying is Ed25519's, of the very message and signature, under the
/// public half of that seed, and asks for no badge.
pub proof fn signing_is_ed25519(
    ks: KeystoreView,
    badge: u64,
    id: KeyId,
    message: Seq<u8>,
    signature: Seq<u8>,
)
    ensures
        ks.seed(id) matches Ok(s) ==> {
            &&& ks.check_access(badge, id, KeyOps(4)) is Ok ==> ks.sign_outcome(
                badge,
                id,
                message,
            ) == Ok::<Seq<u8>, KeystoreError>(ed25519_signature(s, message))
            &&& ks.verify_outcome(id, message, signature) is Ok <==> ed25519_accepts(
                ed25519_public_key(s),
                message,
                signature,
            )
            &&& ks.verify_outcome(id, message, signature) is Err ==> ks.verify_outcome(
                id,
                message,
                signature,
            ) == Err::<(), KeystoreError>(KeystoreError::CryptoFailure)
        },
        ks.seed(id) matches Err(e) ==> {
            &&& ks.verify_outcome(id, message, signature) == Err::<(), KeystoreError>(e)
            &&& ks.check_access(badge, id, KeyOps(4)) is Ok ==> ks.sign_outcome(
                badge,
                id,
                message,
            ) == Err::<Seq<u8>, KeystoreError>(e)
        },
        ks.check_access(badge, id, KeyOps(4)) matches Err(e) ==> ks.sign_outcome(
            badge,
            id,
            message,
        ) == Err::<Seq<u8>, KeystoreError>(e),
{
}

/// A MAC at the keystore is the keyed hash of the very message under the key's own
/// bytes, and verifying accepts that MAC and no other.
pub proof fn a_mac_is_the_keyed_hash(
    ks: KeystoreView,
    badge: u64,
    id: KeyId,
    message: Seq<u8>,
    mac: Seq<u8>,
)
    ensures
        ks.mac_key(badge, id) matches Ok(k) ==> {
            &&& ks.mac_outcome(badge, id, message) == Ok::<Seq<u8>, KeystoreError>(
                blake3_keyed_hash(k, message),
            )
            &&& ks.verify_mac_outcome(badge, id, message, mac) == if mac == blake3_keyed_hash(
                k,
                message,
            ) {
                Ok(())
            } else {
                Err(KeystoreError::CryptoFailure)
            }
        },
        ks.mac_key(badge, id) matches Err(e) ==> {
            &&& ks.mac_outcome(badge, id, message) == Err::<Seq<u8>, KeystoreError>(e)
            &&& ks.verify_mac_outcome(badge, id, message, mac) == Err::<(), KeystoreError>(e)
        },
{
}

/// A sealed token carries the identifier and the caveats as they were given,
/// under the chain that the key's own bytes start. Errors come in this order:
/// the key, the caveats, the room.
pub proof fn sealing_gives_the_token_asked_for(
    ks: KeystoreView,
    badge: u64,
    id: KeyId,
    identifier: Seq<u8>,
    caveats: Seq<Caveat>,
)
    ensures
        ks.mac_key(badge, id) matches Err(e) ==> ks.seal_outcome(badge, id, identifier, caveats)
            == Err::<TokenView, KeystoreError>(e),
        ks.mac_key(badge, id) matches Ok(root) ==> ks.seal_outcome(
            badge,
            id,
            identifier,
            caveats,
        ) == if caveats.len() > 4 {
            Err(KeystoreError::TooManyCaveats)
        } else if ks.seals.len() >= 16 {
            Err(KeystoreError::NotEnoughCapacity)
        } else {
            Ok(TokenView { identifier, caveats, mac: chain(root, identifier, caveats) })
        },
{
}

/// An identifier stands for the first record under it, and unsealing goes by that
/// record: it is not revoked, the badge may use its root key, the token's MAC is
/// the end of the chain that the root key starts, and every caveat holds. What
/// fails first is what is answered.
pub proof fn the_first_record_decides_unsealing(
    ks: KeystoreView,
    badge: u64,
    token: TokenView,
    at: int,
    now: Option<u64>,
    rights: Rights,
)
    requires
        0 <= at < ks.seals.len(),
        ks.seals[at].identifier == token.identifier,
        forall|j: int|
            0 <= j < at ==> (#[trigger] ks.seals[j]).identifier != token.identifier,
    ensures
        ks.seal_record(token.identifier) == Some(ks.seals[at]),
        ks.seals[at].revoked ==> ks.unseal_outcome(badge, token, now, rights) == Err::<
            (),
            KeystoreError,
        >(KeystoreError::SealRevoked),
        !ks.seals[at].revoked ==> match ks.mac_key(badge, ks.seals[at].key) {
            Err(e) => ks.unseal_outcome(badge, token, now, rights) == Err::<(), KeystoreError>(e),
            Ok(root) => {
                &&& token.mac != chain(root, token.identifier, token.caveats)
                    ==> ks.unseal_outcome(badge, token, now, rights) == Err::<(), KeystoreError>(
                    KeystoreError::TokenInvalid,
                )
                &&& token.mac == chain(root, token.identifier, token.caveats)
                    ==> ks.unseal_outcome(badge, token, now, rights) == if (forall|i: int|
                    0 <= i < token.caveats.len() ==> match #[trigger] token.caveats[i] {
                        Caveat::RightsSubset(allowed) => rights.0 & !allowed.0 == 0,
                        Caveat::ExpiresAt(expiry) => now is Some && now->0 <= expiry,
                    }) {
                    Ok(())
                } else {
                    Err(KeystoreError::CaveatNotSatisfied)
                }
            },
        },
{
    let identifiers = ks.identifiers();
    assert forall|j: int| 0 <= j < at implies #[trigger] identifiers[j] != token.identifier by {
        assert(identifiers[j] == ks.seals[j].identifier);
    }
    first_is_position(identifiers, token.identifier, at);
    a_token_admits_what_every_caveat_allows(token, now, rights);
}

/// An identifier under which nothing was sealed is unknown.
pub proof fn without_a_record_nothing_unseals(
    ks: KeystoreView,
    badge: u64,
    token: TokenView,
    now: Option<u64>,
    rights: Rights,
)
    requires
        forall|j: int|
            0 <= j < ks.seals.len() ==> (#[trigger] ks.seals[j]).identifier != token.identifier,
    ensures
        ks.seal_record(token.identifier) is None,
        ks.unseal_outcome(badge, token, now, rights) == Err::<(), KeystoreError>(
            KeystoreError::UnknownSeal,
        ),
{
    position_is_first(ks.identifiers(), token.identifier);
    if let Some(i) = position(ks.identifiers(), token.identifier) {
        assert(ks.seals[i].identifier == token.identifier);
    }
}

/// A badge may be minted for a key that is there, for operations that its purpose
/// admits, as long as there is room; it is asked for with the rights to read and
/// to be handed on.
pub proof fn what_may_be_minted(
    ks: KeystoreView,
    id: KeyId,
    ops: KeyOps,
    source_slot: usize,
    scratch_slot: usize,
)
    ensures
        ks.may_grant(id, ops) == if id.0 >= ks.keys.len() {
            Err(KeystoreError::NoSuchKey)
        } else if ks.keys[id.0 as int].material is Destroyed {
            Err(KeystoreError::KeyDestroyed)
        } else if !match ks.keys[id.0 as int].purpose {
            KeyPurpose::Aead => ops.0 & !3u8 == 0,
            KeyPurpose::Signing => ops.0 & !4u8 == 0,
            KeyPurpose::Mac => ops.0 & !8u8 == 0,
        } {
            Err(KeystoreError::WrongPurpose)
        } else if ks.grants.len() >= 32 {
            Err(KeystoreError::NotEnoughCapacity)
        } else {
            Ok(())
        },
        mint_request(id, ops, source_slot, scratch_slot).key == id,
        mint_request(id, ops, source_slot, scratch_slot).ops == ops,
        mint_request(id, ops, source_slot, scratch_slot).source_slot == source_slot,
        mint_request(id, ops, source_slot, scratch_slot).scratch_slot == scratch_slot,
        mint_request(id, ops, source_slot, scratch_slot).rights == Rights(1u8 | 4u8),
{
    if id.0 < ks.keys.len() {
        admitted_operations_by_bits(ks.keys[id.0 as int].purpose, ops);
    }
    assert(1u8 | 4u8 == 5u8) by (bit_vector);
}

/// A generated key is made of the bytes that it was given: it stands under the
/// name that was handed out, for the purpose and with the material that were
/// asked for, and every key before it is as it was.
pub proof fn a_new_key_is_what_was_asked_for(
    ks: KeystoreView,
    purpose: KeyPurpose,
    material: MaterialView,
    name: KeyId,
)
    ensures
        ks.next_key() == Ok::<KeyId, KeystoreError>(name) <==> ks.keys.len() < 16 && name.0
            == ks.keys.len(),
        ks.keys.len() >= 16 ==> ks.next_key() == Err::<KeyId, KeystoreError>(
            KeystoreError::NotEnoughCapacity,
        ),
        ks.next_key() == Ok::<KeyId, KeystoreError>(name) ==> ks.with_key(
            purpose,
            material,
        ).key(name) == Ok::<KeyView, KeystoreError>(KeyView { purpose, material }),
        ks.with_key(purpose, material).keys.len() == ks.keys.len() + 1,
        name.0 < ks.keys.len() ==> ks.with_key(purpose, material).key(name) == ks.key(name),
        ks.with_key(purpose, material).grants == ks.grants,
        ks.with_key(purpose, material).revoked == ks.revoked,
        ks.with_key(purpose, material).seals == ks.seals,
{
}

/// Destroying a key takes its material and leaves everything else.
pub proof fn destruction_takes_only_the_material(ks: KeystoreView, id: KeyId, other: KeyId)
    requires
        id.0 < ks.keys.len(),
    ensures
        ks.with_destroyed(id).keys.len() == ks.keys.len(),
        ks.with_destroyed(id).keys[id.0 as int].material is Destroyed,
        ks.with_destroyed(id).keys[id.0 as int].purpose == ks.keys[id.0 as int].purpose,
        other.0 < ks.keys.len() && other.0 != id.0 ==> ks.with_destroyed(id).keys[other.0 as int]
            == ks.keys[other.0 as int],
        ks.with_destroyed(id).grants == ks.grants,
        ks.with_destroyed(id).revoked == ks.revoked,
        ks.with_destroyed(id).seals == ks.seals,
{
}

/// A grant is recorded behind the others, with the badge, the key and the
/// operations it was given for.
pub proof fn a_grant_is_recorded_as_given(
    ks: KeystoreView,
    badge: u64,
    key: KeyId,
    ops: KeyOps,
    i: int,
)
    ensures
        ({
            let after = ks.with_grant(badge, key, ops);
            &&& after.grants.len() == ks.grants.len() + 1
            &&& after.grants.last() == GrantView { badge, key, ops }
            &&& 0 <= i < ks.grants.len() ==> after.grants[i] == ks.grants[i]
            &&& after.keys == ks.keys
            &&& after.revoked == ks.revoked
            &&& after.seals == ks.seals
        }),
{
}

/// Revoking a badge adds it to those revoked, and does nothing else.
pub proof fn revoking_marks_the_badge(ks: KeystoreView, badge: u64, other: u64)
    ensures
        ({
            let after = ks.with_revoked_badge(badge);
            &&& after.revoked.contains(other) <==> other == badge || ks.revoked.contains(other)
            &&& after.keys == ks.keys
            &&& after.grants == ks.grants
            &&& after.seals == ks.seals
        }),
{
}

/// A seal is recorded behind the others, with the identifier and the key it was
/// given for, and not revoked.
pub proof fn a_seal_is_recorded_as_given(
    ks: KeystoreView,
    identifier: Seq<u8>,
    key: KeyId,
    i: int,
)
    ensures
        ({
            let after = ks.with_seal(identifier, key);
            &&& after.seals.len() == ks.seals.len() + 1
            &&& after.seals.last() == SealView { identifier, key, revoked: false }
            &&& 0 <= i < ks.seals.len() ==> after.seals[i] == ks.seals[i]
            &&& after.keys == ks.keys
            &&& after.grants == ks.grants
            &&& after.revoked == ks.revoked
        }),
{
}

/// Revoking an identifier marks the record that it stands for, the first under
/// it, and does nothing else.
pub proof fn revoking_marks_the_first_record(
    ks: KeystoreView,
    identifier: Seq<u8>,
    at: int,
    i: int,
)
    requires
        0 <= at < ks.seals.len(),
        ks.seals[at].identifier == identifier,
        forall|j: int| 0 <= j < at ==> (#[trigger] ks.seals[j]).identifier != identifier,
        0 <= i < ks.seals.len(),
    ensures
        ({
            let after = ks.with_revoked_seal(identifier);
            &&& after.seals.len() == ks.seals.len()
            &&& after.seals[i].identifier == ks.seals[i].identifier
            &&& after.seals[i].key == ks.seals[i].key
            &&& after.seals[i].revoked <==> i == at || ks.seals[i].revoked
            &&& after.keys == ks.keys
            &&& after.grants == ks.grants
            &&& after.revoked == ks.revoked
        }),
{
    let identifiers = ks.identifiers();
    assert forall|j: int| 0 <= j < at implies #[trigger] identifiers[j] != identifier by {
        assert(identifiers[j] == ks.seals[j].identifier);
    }
    first_is_position(identifiers, identifier, at);
}

/// Revoking an identifier under which nothing was sealed does nothing.
pub proof fn revoking_an_unknown_identifier_does_nothing(ks: KeystoreView, identifier: Seq<u8>)
    requires
        forall|j: int|
            0 <= j < ks.seals.len() ==> (#[trigger] ks.seals[j]).identifier != identifier,
    ensures
        ks.seal_record(identifier) is None,
        ks.with_revoked_seal(identifier) == ks,
{
    position_is_first(ks.identifiers(), identifier);
    if let Some(i) = position(ks.identifiers(), identifier) {
        assert(ks.seals[i].identifier == identifier);
    }
}

/// A later state has every key, badge and token of the earlier one in its place.
pub proof fn what_was_there_stays(
    ks: KeystoreView,
    later: KeystoreView,
    i: int,
    badge: u64,
)
    requires
        ks.evolves_to(later),
    ensures
        0 <= i < ks.keys.len() ==> i < later.keys.len() && later.keys[i].purpose
            == ks.keys[i].purpose && (later.keys[i].material == ks.keys[i].material
            || later.keys[i].material is Destroyed),
        0 <= i < ks.keys.len() && ks.keys[i].material is Destroyed
            ==> later.keys[i].material is Destroyed,
        0 <= i < ks.grants.len() ==> i < later.grants.len() && later.grants[i] == ks.grants[i],
        0 <= i < ks.seals.len() ==> i < later.seals.len() && later.seals[i].identifier
            == ks.seals[i].identifier && later.seals[i].key == ks.seals[i].key && (
        ks.seals[i].revoked ==> later.seals[i].revoked),
        ks.revoked.contains(badge) ==> later.revoked.contains(badge),
{
}

/// A keystore stays within its capacity, its material fits each key's purpose, a
/// badge has only bits that its key's purpose admits, and a sealed token hangs on
/// a MAC key.
pub proof fn a_keystore_keeps_these_bounds(ks: KeystoreView, i: int)
    requires
        ks.wf(),
    ensures
        ks.keys.len() <= 16,
        ks.grants.len() <= 32,
        ks.seals.len() <= 16,
        0 <= i < ks.keys.len() ==> match ks.keys[i].material {
            MaterialView::Aead(_) => ks.keys[i].purpose == KeyPurpose::Aead,
            MaterialView::Signing(_) => ks.keys[i].purpose == KeyPurpose::Signing,
            MaterialView::Mac(_) => ks.keys[i].purpose == KeyPurpose::Mac,
            MaterialView::Destroyed => true,
        },
        0 <= i < ks.grants.len() ==> ks.grants[i].key.0 < ks.keys.len()
            && match ks.keys[ks.grants[i].key.0 as int].purpose {
            KeyPurpose::Aead => ks.grants[i].ops.0 & !3u8 == 0,
            KeyPurpose::Signing => ks.grants[i].ops.0 & !4u8 == 0,
            KeyPurpose::Mac => ks.grants[i].ops.0 & !8u8 == 0,
        },
        0 <= i < ks.seals.len() ==> ks.seals[i].key.0 < ks.keys.len()
            && ks.keys[ks.seals[i].key.0 as int].purpose == KeyPurpose::Mac,
        MAX_KEYS == 16,
        MAX_GRANTS == 32,
        MAX_SEALS == 16,
{
    if 0 <= i < ks.grants.len() {
        let g = ks.grants[i];
        admitted_operations_by_bits(ks.keys[g.key.0 as int].purpose, g.ops);
    }
    if 0 <= i < ks.keys.len() {
        assert(ks.keys[i].wf());
    }
    if 0 <= i < ks.seals.len() {
        assert(ks.seals[i].key.0 < ks.keys.len());
    }
}

/// A keystore begins with nothing in it.
pub proof fn an_empty_keystore_holds_nothing(badge: u64)
    ensures
        KeystoreView::empty().keys.len() == 0,
        KeystoreView::empty().grants.len() == 0,
        KeystoreView::empty().seals.len() == 0,
        !KeystoreView::empty().revoked.contains(badge),
{
}

} // verus!
