//! What holds of a keystore whatever is done to it: what each step keeps, and
//! what follows for badges, keys and sealed tokens later on.

use vstd::prelude::*;

use crate::keys::{
    admitted_ops, covering_is_a_preorder, purposes_share_no_operation, KeyId, KeyOps, KeyPurpose,
    KeystoreError, OPS_DECRYPT, OPS_ENCRYPT, OPS_MAC, OPS_SIGN,
};
use crate::kernel::Rights;
use crate::model::{
    first_is_position, position, position_is_first, KeyView, KeystoreView, MaterialView,
    MAX_KEYS,
};
use crate::sealed::{attenuation_keeps_genuine, attenuation_only_narrows, Caveat, TokenView};

verus! {

/// Adding a key keeps a keystore a keystore, and keeps all that it held.
pub proof fn adding_a_key_evolves(ks: KeystoreView, purpose: KeyPurpose, material: MaterialView)
    requires
        ks.wf(),
        ks.keys.len() < MAX_KEYS,
        (KeyView { purpose, material }).wf(),
    ensures
        ks.with_key(purpose, material).wf(),
        ks.evolves_to(ks.with_key(purpose, material)),
{
}

/// Destroying a key keeps a keystore a keystore, and keeps all but the
/// material.
pub proof fn destroying_a_key_evolves(ks: KeystoreView, id: KeyId)
    requires
        ks.wf(),
        ks.key(id) is Ok,
    ensures
        ks.with_destroyed(id).wf(),
        ks.evolves_to(ks.with_destroyed(id)),
{
}

/// Granting a badge keeps a keystore a keystore, and keeps all that it held.
pub proof fn granting_evolves(ks: KeystoreView, badge: u64, id: KeyId, ops: KeyOps)
    requires
        ks.wf(),
        ks.may_grant(id, ops) is Ok,
    ensures
        ks.with_grant(badge, id, ops).wf(),
        ks.evolves_to(ks.with_grant(badge, id, ops)),
{
}

/// Revoking a badge keeps a keystore a keystore, and keeps all but the badge's
/// being good.
pub proof fn revoking_a_badge_evolves(ks: KeystoreView, badge: u64)
    requires
        ks.wf(),
    ensures
        ks.with_revoked_badge(badge).wf(),
        ks.evolves_to(ks.with_revoked_badge(badge)),
{
}

/// Sealing a root token keeps a keystore a keystore, and keeps all that it
/// held.
pub proof fn sealing_evolves(
    ks: KeystoreView,
    badge: u64,
    id: KeyId,
    identifier: Seq<u8>,
    caveats: Seq<Caveat>,
)
    requires
        ks.wf(),
        ks.seal_outcome(badge, id, identifier, caveats) is Ok,
    ensures
        ks.with_seal(identifier, id).wf(),
        ks.evolves_to(ks.with_seal(identifier, id)),
{
    assert(ks.keys[id.0 as int].wf());
}

/// Revoking an identifier keeps a keystore a keystore, and keeps all but the
/// identifier's being good.
pub proof fn revoking_a_seal_evolves(ks: KeystoreView, identifier: Seq<u8>)
    requires
        ks.wf(),
    ensures
        ks.with_revoked_seal(identifier).wf(),
        ks.evolves_to(ks.with_revoked_seal(identifier)),
{
    position_is_first(ks.identifiers(), identifier);
}

/// Steps add up: what one operation after another leads to is a later state
/// of where it began, and doing nothing leads nowhere else.
pub proof fn evolution_is_a_preorder(a: KeystoreView, b: KeystoreView, c: KeystoreView)
    ensures
        a.evolves_to(a),
        a.evolves_to(b) && b.evolves_to(c) ==> a.evolves_to(c),
{
    if a.evolves_to(b) && b.evolves_to(c) {
        assert forall|i: int| 0 <= i < a.keys.len() implies {
            let (k, l) = (a.keys[i], #[trigger] c.keys[i]);
            l.purpose == k.purpose && (l.material == k.material || l.material is Destroyed)
        } by {
            assert(b.keys[i].purpose == a.keys[i].purpose);
        }
        assert forall|i: int| 0 <= i < a.grants.len() implies {
            let (g, l) = (a.grants[i], #[trigger] c.grants[i]);
            l == g
        } by {
            assert(b.grants[i] == a.grants[i]);
        }
        assert forall|badge: u64| a.revoked.contains(badge) implies #[trigger] c.revoked.contains(
            badge,
        ) by {
            assert(b.revoked.contains(badge));
        }
        assert forall|i: int| 0 <= i < a.seals.len() implies {
            let (s, l) = (a.seals[i], #[trigger] c.seals[i]);
            l.identifier == s.identifier && l.key == s.key && (s.revoked ==> l.revoked)
        } by {
            assert(b.seals[i].identifier == a.seals[i].identifier);
        }
    }
}

/// A badge means one thing for good: the key and the operations that it was
/// granted for never change, and once revoked it stays revoked.
pub proof fn a_badge_never_changes_meaning(ks: KeystoreView, later: KeystoreView, badge: u64)
    requires
        ks.evolves_to(later),
        ks.grant(badge) is Some,
    ensures
        later.grant(badge) == ks.grant(badge),
        ks.is_revoked(badge) ==> later.is_revoked(badge),
{
    let s = ks.badges();
    let t = later.badges();
    position_is_first(s, badge);
    let i = position(s, badge)->0;
    assert(later.grants[i] == ks.grants[i]);
    assert forall|j: int| 0 <= j < i implies #[trigger] t[j] != badge by {
        assert(later.grants[j] == ks.grants[j]);
        assert(s[j] != badge);
    }
    first_is_position(t, badge, i);
}

/// A sealed identifier means one thing for good: the root key that it hangs on
/// never changes, and once revoked it stays revoked, even if it is sealed
/// again.
pub proof fn an_identifier_never_changes_meaning(
    ks: KeystoreView,
    later: KeystoreView,
    identifier: Seq<u8>,
)
    requires
        ks.evolves_to(later),
        ks.seal_record(identifier) is Some,
    ensures
        later.seal_record(identifier) matches Some(s) && s.key == ks.seal_record(identifier)->0.key
            && (ks.seal_record(identifier)->0.revoked ==> s.revoked),
{
    let s = ks.identifiers();
    let t = later.identifiers();
    position_is_first(s, identifier);
    let i = position(s, identifier)->0;
    assert(later.seals[i].identifier == ks.seals[i].identifier);
    assert forall|j: int| 0 <= j < i implies #[trigger] t[j] != identifier by {
        assert(later.seals[j].identifier == ks.seals[j].identifier);
        assert(s[j] != identifier);
    }
    first_is_position(t, identifier, i);
}

/// Deny by default: a badge that was never granted reads as revoked.
pub proof fn an_unknown_badge_reads_as_revoked(ks: KeystoreView, badge: u64)
    requires
        !ks.badges().contains(badge),
    ensures
        ks.is_revoked(badge),
        ks.grant(badge) is None,
{
    position_is_first(ks.badges(), badge);
}

/// A revoked badge gets nothing: whatever it asks for, on whatever key, is
/// answered with the same error, and before the key is looked at.
pub proof fn a_revoked_badge_gets_nothing(
    ks: KeystoreView,
    badge: u64,
    id: KeyId,
    op: KeyOps,
    nonce: Seq<u8>,
    aad: Seq<u8>,
    data: Seq<u8>,
    tag_or_mac: Seq<u8>,
    caveats: Seq<Caveat>,
)
    requires
        ks.is_revoked(badge),
    ensures
        ks.check_access(badge, id, op) == Err::<(), KeystoreError>(KeystoreError::BadgeRevoked),
        ks.encrypt_outcome(badge, id, nonce, aad, data) == Err::<
            (Seq<u8>, Seq<u8>),
            KeystoreError,
        >(KeystoreError::BadgeRevoked),
        ks.decrypt_outcome(badge, id, nonce, aad, data, tag_or_mac) == Err::<
            Seq<u8>,
            KeystoreError,
        >(KeystoreError::BadgeRevoked),
        ks.sign_outcome(badge, id, data) == Err::<Seq<u8>, KeystoreError>(
            KeystoreError::BadgeRevoked,
        ),
        ks.mac_outcome(badge, id, data) == Err::<Seq<u8>, KeystoreError>(
            KeystoreError::BadgeRevoked,
        ),
        ks.verify_mac_outcome(badge, id, data, tag_or_mac) == Err::<(), KeystoreError>(
            KeystoreError::BadgeRevoked,
        ),
        ks.seal_outcome(badge, id, data, caveats) == Err::<TokenView, KeystoreError>(
            KeystoreError::BadgeRevoked,
        ),
{
}

/// A revoked badge unseals nothing.
pub proof fn a_revoked_badge_unseals_nothing(
    ks: KeystoreView,
    badge: u64,
    token: TokenView,
    now: Option<u64>,
    rights: Rights,
)
    requires
        ks.is_revoked(badge),
    ensures
        ks.unseal_outcome(badge, token, now, rights) is Err,
{
}

/// Revocation is final: once a badge is revoked, no later state of the
/// keystore honours it, not even if it had never been granted before.
pub proof fn revocation_is_final(ks: KeystoreView, later: KeystoreView, badge: u64)
    requires
        ks.with_revoked_badge(badge).evolves_to(later),
    ensures
        later.is_revoked(badge),
{
    assert(ks.with_revoked_badge(badge).revoked.contains(badge));
}

/// Revoking one badge touches no other, and no key and no sealed token.
pub proof fn revocation_touches_no_other_badge(
    ks: KeystoreView,
    badge: u64,
    other: u64,
    id: KeyId,
    op: KeyOps,
)
    requires
        other != badge,
    ensures
        ks.with_revoked_badge(badge).check_access(other, id, op) == ks.check_access(
            other,
            id,
            op,
        ),
        ks.with_revoked_badge(badge).keys == ks.keys,
        ks.with_revoked_badge(badge).seals == ks.seals,
{
    assert(ks.with_revoked_badge(badge).badges() =~= ks.badges());
}

/// A fresh badge, neither granted nor revoked before, is good for exactly what
/// it was granted for: on its key for the operations asked for, and on no other
/// key for anything.
pub proof fn a_grant_gives_what_was_asked_for(
    ks: KeystoreView,
    badge: u64,
    id: KeyId,
    ops: KeyOps,
    other: KeyId,
    op: KeyOps,
)
    requires
        !ks.badges().contains(badge),
        !ks.revoked.contains(badge),
    ensures
        ks.with_grant(badge, id, ops).check_access(badge, other, op) == if other != id {
            Err(KeystoreError::WrongKey)
        } else if !ops.covers(op) {
            Err(KeystoreError::OpNotGranted)
        } else {
            Ok(())
        },
{
    let after = ks.with_grant(badge, id, ops);
    let n = ks.grants.len() as int;
    assert forall|j: int| 0 <= j < n implies #[trigger] after.badges()[j] != badge by {
        assert(ks.badges()[j] == after.badges()[j]);
    }
    first_is_position(after.badges(), badge, n);
}

/// Access lasts until it is revoked, and what a badge was denied it is denied
/// for good: no later operation widens it.
pub proof fn access_is_fixed_when_granted(
    ks: KeystoreView,
    later: KeystoreView,
    badge: u64,
    id: KeyId,
    op: KeyOps,
)
    requires
        ks.evolves_to(later),
        ks.grant(badge) is Some,
    ensures
        later.check_access(badge, id, op) is Ok <==> ks.check_access(badge, id, op) is Ok
            && !later.is_revoked(badge),
{
    a_badge_never_changes_meaning(ks, later, badge);
}

/// A badge is good on one key at most.
pub proof fn a_badge_names_one_key(
    ks: KeystoreView,
    badge: u64,
    id: KeyId,
    op: KeyOps,
    other_id: KeyId,
    other_op: KeyOps,
)
    requires
        ks.check_access(badge, id, op) is Ok,
        ks.check_access(badge, other_id, other_op) is Ok,
    ensures
        id == other_id,
{
}

/// Whatever a badge is allowed makes sense on the key that it names.
pub proof fn allowed_operations_fit_the_key(ks: KeystoreView, badge: u64, id: KeyId, op: KeyOps)
    requires
        ks.wf(),
        ks.check_access(badge, id, op) is Ok,
    ensures
        ks.key(id) matches Ok(k) && admitted_ops(k.purpose).covers(op),
{
    position_is_first(ks.badges(), badge);
    let g = ks.grants[position(ks.badges(), badge)->0];
    covering_is_a_preorder(admitted_ops(ks.keys[g.key.0 as int].purpose), g.ops, op);
}

/// So an operation that passes the check never meets a missing key or a key of
/// another kind: the badge was turned away when it was asked for.
pub proof fn no_badge_leads_to_the_wrong_kind_of_key(
    ks: KeystoreView,
    badge: u64,
    id: KeyId,
    message: Seq<u8>,
)
    requires
        ks.wf(),
    ensures
        ks.aead_key(badge, id, KeyOps(OPS_ENCRYPT)) matches Err(e) ==> e
            != KeystoreError::WrongPurpose && e != KeystoreError::NoSuchKey,
        ks.aead_key(badge, id, KeyOps(OPS_DECRYPT)) matches Err(e) ==> e
            != KeystoreError::WrongPurpose && e != KeystoreError::NoSuchKey,
        ks.sign_outcome(badge, id, message) matches Err(e) ==> e
            != KeystoreError::WrongPurpose && e != KeystoreError::NoSuchKey,
        ks.mac_key(badge, id) matches Err(e) ==> e != KeystoreError::WrongPurpose && e
            != KeystoreError::NoSuchKey,
{
    fits(ks, badge, id, KeyOps(OPS_ENCRYPT), KeyPurpose::Aead);
    fits(ks, badge, id, KeyOps(OPS_DECRYPT), KeyPurpose::Aead);
    fits(ks, badge, id, KeyOps(OPS_SIGN), KeyPurpose::Signing);
    fits(ks, badge, id, KeyOps(OPS_MAC), KeyPurpose::Mac);
}

/// An allowed operation that only `purpose` admits is on a key of that
/// purpose.
proof fn fits(ks: KeystoreView, badge: u64, id: KeyId, op: KeyOps, purpose: KeyPurpose)
    requires
        ks.wf(),
        op.0 == OPS_ENCRYPT || op.0 == OPS_DECRYPT ==> purpose == KeyPurpose::Aead,
        op.0 == OPS_SIGN ==> purpose == KeyPurpose::Signing,
        op.0 == OPS_MAC ==> purpose == KeyPurpose::Mac,
        op.0 == OPS_ENCRYPT || op.0 == OPS_DECRYPT || op.0 == OPS_SIGN || op.0 == OPS_MAC,
    ensures
        ks.check_access(badge, id, op) is Ok ==> ks.key(id) is Ok && ks.keys[id.0 as int].purpose
            == purpose && ks.keys[id.0 as int].wf(),
{
    if ks.check_access(badge, id, op) is Ok {
        allowed_operations_fit_the_key(ks, badge, id, op);
        let k = ks.keys[id.0 as int];
        assert(3u8 & 1u8 == 1u8 && 3u8 & 2u8 == 2u8 && 4u8 & 4u8 == 4u8 && 8u8 & 8u8 == 8u8)
            by (bit_vector);
        if k.purpose != purpose {
            purposes_share_no_operation(k.purpose, purpose, op);
        }
    }
}

/// Key names are never reused: the name that the next key gets was never the
/// name of a key before, destroyed or not.
pub proof fn key_names_are_never_reused(ks: KeystoreView, later: KeystoreView, id: KeyId)
    requires
        ks.evolves_to(later),
        ks.key(id) is Ok,
    ensures
        later.next_key() != Ok::<KeyId, KeystoreError>(id),
        later.key(id) matches Ok(k) && k.purpose == ks.keys[id.0 as int].purpose,
{
}

/// A key keeps its bytes until it is destroyed: as long as it is there, and a
/// badge for it is good, the badge uses the same bytes later as before, and so
/// does whoever verifies a signature.
pub proof fn a_key_keeps_its_bytes(
    ks: KeystoreView,
    later: KeystoreView,
    badge: u64,
    id: KeyId,
    op: KeyOps,
)
    requires
        ks.evolves_to(later),
        ks.key(id) is Ok,
        !(later.keys[id.0 as int].material is Destroyed),
    ensures
        later.key(id) == ks.key(id),
        later.seed(id) == ks.seed(id),
        ks.grant(badge) is Some && !later.is_revoked(badge) ==> {
            &&& later.aead_key(badge, id, op) == ks.aead_key(badge, id, op)
            &&& later.mac_key(badge, id) == ks.mac_key(badge, id)
        },
{
    assert(later.keys[id.0 as int].material == ks.keys[id.0 as int].material);
    if ks.grant(badge) is Some {
        a_badge_never_changes_meaning(ks, later, badge);
    }
}

/// A destroyed key stays destroyed and works for no one: every operation on it
/// fails, and where the badge is good, it says that the key is gone.
pub proof fn a_destroyed_key_is_gone_for_good(
    ks: KeystoreView,
    later: KeystoreView,
    badge: u64,
    id: KeyId,
    op: KeyOps,
)
    requires
        ks.key(id) is Ok,
        ks.with_destroyed(id).evolves_to(later),
    ensures
        later.key(id) matches Ok(k) && k.material is Destroyed,
        later.seed(id) == Err::<Seq<u8>, KeystoreError>(KeystoreError::KeyDestroyed),
        later.aead_key(badge, id, op) == match later.check_access(badge, id, op) {
            Ok(()) => Err::<Seq<u8>, KeystoreError>(KeystoreError::KeyDestroyed),
            Err(e) => Err(e),
        },
        later.mac_key(badge, id) == match later.check_access(badge, id, KeyOps(OPS_MAC)) {
            Ok(()) => Err::<Seq<u8>, KeystoreError>(KeystoreError::KeyDestroyed),
            Err(e) => Err(e),
        },
        later.may_grant(id, op) == Err::<(), KeystoreError>(KeystoreError::KeyDestroyed),
{
    assert(ks.with_destroyed(id).keys[id.0 as int].material is Destroyed);
    assert(later.keys[id.0 as int].material is Destroyed);
}

/// Destroying a key revokes no badge and touches no other key.
pub proof fn destruction_touches_nothing_else(
    ks: KeystoreView,
    id: KeyId,
    other: KeyId,
    badge: u64,
    op: KeyOps,
)
    requires
        ks.key(id) is Ok,
        other != id,
    ensures
        ks.with_destroyed(id).check_access(badge, id, op) == ks.check_access(badge, id, op),
        ks.with_destroyed(id).check_access(badge, other, op) == ks.check_access(badge, other, op),
        ks.with_destroyed(id).key(other) == ks.key(other),
{
}

/// A MAC verifies for the message that it was computed for, and no other MAC
/// does.
pub proof fn a_mac_verifies_and_no_other(
    ks: KeystoreView,
    badge: u64,
    id: KeyId,
    message: Seq<u8>,
    mac: Seq<u8>,
)
    requires
        ks.mac_key(badge, id) is Ok,
    ensures
        ks.verify_mac_outcome(badge, id, message, mac) is Ok <==> ks.mac_outcome(
            badge,
            id,
            message,
        ) == Ok::<Seq<u8>, KeystoreError>(mac),
{
}

/// A sealed token unseals, for just the requests that its caveats admit. The
/// identifier must be new, or stand for the same root key and not be revoked.
pub proof fn a_sealed_token_unseals(
    ks: KeystoreView,
    badge: u64,
    id: KeyId,
    identifier: Seq<u8>,
    caveats: Seq<Caveat>,
    now: Option<u64>,
    rights: Rights,
)
    requires
        ks.wf(),
        ks.seal_outcome(badge, id, identifier, caveats) is Ok,
        ks.seal_record(identifier) matches Some(record) ==> record.key == id && !record.revoked,
    ensures
        ({
            let token = ks.seal_outcome(badge, id, identifier, caveats)->Ok_0;
            ks.with_seal(identifier, id).unseal_outcome(badge, token, now, rights)
                == if token.admits(now, rights) {
                Ok(())
            } else {
                Err(KeystoreError::CaveatNotSatisfied)
            }
        }),
{
    let after = ks.with_seal(identifier, id);
    let n = ks.seals.len() as int;
    position_is_first(ks.identifiers(), identifier);
    match position(ks.identifiers(), identifier) {
        Some(_) => {
            sealing_evolves(ks, badge, id, identifier, caveats);
            let i = position(ks.identifiers(), identifier)->0;
            assert forall|j: int| 0 <= j < i implies #[trigger] after.identifiers()[j]
                != identifier by {
                assert(ks.identifiers()[j] == after.identifiers()[j]);
            }
            first_is_position(after.identifiers(), identifier, i);
        },
        None => {
            assert forall|j: int| 0 <= j < n implies #[trigger] after.identifiers()[j]
                != identifier by {
                assert(ks.identifiers()[j] == after.identifiers()[j]);
            }
            first_is_position(after.identifiers(), identifier, n);
        },
    }
}

/// An attenuated token unseals for just those requests for which the token that
/// it came from unseals and the added caveat holds.
pub proof fn attenuation_narrows_unsealing(
    ks: KeystoreView,
    badge: u64,
    token: TokenView,
    caveat: Caveat,
    now: Option<u64>,
    rights: Rights,
)
    requires
        ({
            &&& ks.seal_record(token.identifier) matches Some(record)
            &&& ks.mac_key(badge, record.key) matches Ok(root)
            &&& token.genuine(root)
        }),
    ensures
        ks.unseal_outcome(badge, token.attenuated(caveat), now, rights) is Ok
            <==> ks.unseal_outcome(badge, token, now, rights) is Ok && caveat.satisfied(
            now,
            rights,
        ),
{
    let record = ks.seal_record(token.identifier)->0;
    let root = ks.mac_key(badge, record.key)->Ok_0;
    attenuation_keeps_genuine(root, token, caveat);
    attenuation_only_narrows(token, caveat, now, rights);
}

/// A token that unseals keeps unsealing, until its identifier or the badge is
/// revoked or the root key is destroyed.
pub proof fn unsealing_lasts(
    ks: KeystoreView,
    later: KeystoreView,
    badge: u64,
    token: TokenView,
    now: Option<u64>,
    rights: Rights,
)
    requires
        ks.evolves_to(later),
        ks.unseal_outcome(badge, token, now, rights) is Ok,
        !later.is_revoked(badge),
        !later.seal_record(token.identifier)->0.revoked,
        !(later.keys[ks.seal_record(token.identifier)->0.key.0 as int].material is Destroyed),
    ensures
        later.unseal_outcome(badge, token, now, rights) is Ok,
{
    let record = ks.seal_record(token.identifier)->0;
    an_identifier_never_changes_meaning(ks, later, token.identifier);
    a_key_keeps_its_bytes(ks, later, badge, record.key, KeyOps(OPS_MAC));
}

/// Revoking an identifier covers every token under it, whoever sealed or
/// attenuated it and whenever, and for good.
pub proof fn a_revoked_identifier_unseals_nothing(
    ks: KeystoreView,
    later: KeystoreView,
    badge: u64,
    token: TokenView,
    now: Option<u64>,
    rights: Rights,
)
    requires
        ks.seal_record(token.identifier) is Some,
        ks.with_revoked_seal(token.identifier).evolves_to(later),
    ensures
        later.unseal_outcome(badge, token, now, rights) == Err::<(), KeystoreError>(
            KeystoreError::SealRevoked,
        ),
{
    let identifier = token.identifier;
    let revoked = ks.with_revoked_seal(identifier);
    position_is_first(ks.identifiers(), identifier);
    let i = position(ks.identifiers(), identifier)->0;
    assert(revoked.identifiers() =~= ks.identifiers());
    assert(revoked.seal_record(identifier) == Some(revoked.seals[i]));
    an_identifier_never_changes_meaning(revoked, later, identifier);
}

/// Deny by default: a token under an identifier that was never sealed here is
/// unknown, however well it is made.
pub proof fn an_unknown_identifier_unseals_nothing(
    ks: KeystoreView,
    badge: u64,
    token: TokenView,
    now: Option<u64>,
    rights: Rights,
)
    requires
        !ks.identifiers().contains(token.identifier),
    ensures
        ks.unseal_outcome(badge, token, now, rights) == Err::<(), KeystoreError>(
            KeystoreError::UnknownSeal,
        ),
{
    position_is_first(ks.identifiers(), token.identifier);
}

/// What unseals is genuine, admitted, not revoked, and asked for with a badge
/// for the very root key that it was sealed under.
pub proof fn unsealing_takes_everything(
    ks: KeystoreView,
    badge: u64,
    token: TokenView,
    now: Option<u64>,
    rights: Rights,
)
    requires
        ks.unseal_outcome(badge, token, now, rights) is Ok,
    ensures
        ({
            &&& ks.seal_record(token.identifier) matches Some(record)
            &&& !record.revoked
            &&& ks.check_access(badge, record.key, KeyOps(OPS_MAC)) is Ok
            &&& ks.mac_key(badge, record.key) matches Ok(root)
            &&& token.genuine(root)
        }),
        token.admits(now, rights),
{
}

} // verus!
