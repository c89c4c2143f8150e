//! The keystore: keys, badges and sealed tokens.

use lantern_crypto::aead::{AEAD_KEY_LEN, NONCE_LEN, TAG_LEN};
use lantern_crypto::hash::{MacKey, MAC_KEY_LEN};
use lantern_crypto::kernel::{MintRequest, Rights, SyscallError};
use lantern_crypto::sealed::{attenuate, seal, Caveat, SealedToken, IDENTIFIER_LEN, MAX_CAVEATS};
use lantern_crypto::signing::{SEED_LEN, SIGNATURE_LEN};
use lantern_crypto::{KeyId, KeyOps, KeyPurpose, Keystore, KeystoreError};

const SOURCE_SLOT: usize = 5;
const SCRATCH_SLOT: usize = 6;

/// A keystore beside a stand-in for the kernel, which mints badges one after
/// the other.
struct Fixture {
    keystore: Keystore,
    next_badge: u64,
}

fn setup() -> Fixture {
    Fixture { keystore: Keystore::new(), next_badge: 1 }
}

/// Mints and delivers a badge scoped to `key` and `ops`.
fn grant_access(f: &mut Fixture, key: KeyId, ops: KeyOps) -> u64 {
    let request =
        f.keystore.request_key_access(key, ops, SOURCE_SLOT, SCRATCH_SLOT).unwrap();
    let minted = f.next_badge;
    f.next_badge += 1;
    let badge = f.keystore.record_key_access(&request, Ok(minted)).unwrap();
    f.keystore.deliver_grant(Ok(())).unwrap();
    assert_eq!(badge, minted);
    badge
}

#[test]
fn granted_badge_can_encrypt_and_decrypt() {
    let mut f = setup();
    let key = f.keystore.generate_aead_key([1u8; AEAD_KEY_LEN]).unwrap();
    let badge = grant_access(&mut f, key, KeyOps::encrypt().union(KeyOps::decrypt()));

    let nonce = [2u8; NONCE_LEN];
    let mut buf = *b"a secret message";
    let tag = f.keystore.encrypt(badge, key, &nonce, b"ctx", &mut buf).unwrap();
    assert_ne!(&buf[..], b"a secret message");

    f.keystore.decrypt(badge, key, &nonce, b"ctx", &mut buf, &tag).unwrap();
    assert_eq!(&buf[..], b"a secret message");
}

#[test]
fn granted_badge_can_sign_anyone_can_verify() {
    let mut f = setup();
    let key = f.keystore.generate_signing_key([3u8; SEED_LEN]).unwrap();
    let badge = grant_access(&mut f, key, KeyOps::sign());

    let sig = f.keystore.sign(badge, key, b"a message").unwrap();
    // Verification needs no badge at all.
    f.keystore.verify(key, b"a message", &sig).unwrap();
}

#[test]
fn granted_badge_can_mac_and_verify() {
    let mut f = setup();
    let key = f.keystore.generate_mac_key([4u8; MAC_KEY_LEN]).unwrap();
    let badge = grant_access(&mut f, key, KeyOps::mac());

    let mac = f.keystore.mac(badge, key, b"a message").unwrap();
    // Verifying a MAC needs the secret key, so it is gated like computing it.
    f.keystore.verify_mac(badge, key, b"a message", &mac).unwrap();
    assert!(f.keystore.verify_mac(badge, key, b"a different message", &mac).is_err());
}

#[test]
fn mac_key_cannot_sign() {
    let mut f = setup();
    let key = f.keystore.generate_mac_key([4u8; MAC_KEY_LEN]).unwrap();
    let badge = grant_access(&mut f, key, KeyOps::mac());
    assert_eq!(f.keystore.sign(badge, key, b"a message"), Err(KeystoreError::OpNotGranted));
}

#[test]
fn sealed_token_round_trips_through_seal_and_unseal() {
    let mut f = setup();
    let key = f.keystore.generate_mac_key([6u8; MAC_KEY_LEN]).unwrap();
    let badge = grant_access(&mut f, key, KeyOps::mac());

    let token = f
        .keystore
        .seal(badge, key, [1u8; IDENTIFIER_LEN], &[Caveat::RightsSubset(Rights::read())])
        .unwrap();
    f.keystore.unseal(badge, &token, None, Rights::read()).unwrap();
}

#[test]
fn attenuated_token_still_unseals_and_narrows_further() {
    let mut f = setup();
    let key = f.keystore.generate_mac_key([6u8; MAC_KEY_LEN]).unwrap();
    let badge = grant_access(&mut f, key, KeyOps::mac());

    let token = f
        .keystore
        .seal(badge, key, [1u8; IDENTIFIER_LEN], &[Caveat::RightsSubset(Rights::all())])
        .unwrap();
    // Attenuation needs neither badge nor keystore.
    let narrowed = attenuate(&token, Caveat::ExpiresAt(1000)).unwrap();

    f.keystore.unseal(badge, &narrowed, Some(999), Rights::read()).unwrap();
    assert_eq!(
        f.keystore.unseal(badge, &narrowed, Some(1001), Rights::read()),
        Err(KeystoreError::CaveatNotSatisfied)
    );
    // No clock means unsatisfied, not unchecked.
    assert_eq!(
        f.keystore.unseal(badge, &narrowed, None, Rights::read()),
        Err(KeystoreError::CaveatNotSatisfied)
    );
}

#[test]
fn unseal_rejects_rights_wider_than_caveat_allows() {
    let mut f = setup();
    let key = f.keystore.generate_mac_key([6u8; MAC_KEY_LEN]).unwrap();
    let badge = grant_access(&mut f, key, KeyOps::mac());

    let token = f
        .keystore
        .seal(badge, key, [1u8; IDENTIFIER_LEN], &[Caveat::RightsSubset(Rights::read())])
        .unwrap();
    assert_eq!(
        f.keystore.unseal(badge, &token, None, Rights::read().union(Rights::write())),
        Err(KeystoreError::CaveatNotSatisfied)
    );
}

#[test]
fn revoked_seal_rejects_unseal_even_with_a_cryptographically_valid_token() {
    let mut f = setup();
    let key = f.keystore.generate_mac_key([6u8; MAC_KEY_LEN]).unwrap();
    let badge = grant_access(&mut f, key, KeyOps::mac());

    let identifier = [1u8; IDENTIFIER_LEN];
    let token = f.keystore.seal(badge, key, identifier, &[]).unwrap();
    f.keystore.revoke_seal(&identifier).unwrap();

    assert_eq!(
        f.keystore.unseal(badge, &token, None, Rights::none()),
        Err(KeystoreError::SealRevoked)
    );
}

#[test]
fn unknown_seal_identifier_is_rejected_deny_by_default() {
    let f = setup();
    let bogus = seal(
        &MacKey::from_random_bytes([9u8; MAC_KEY_LEN]),
        [2u8; IDENTIFIER_LEN],
        &[],
    )
    .unwrap();
    assert_eq!(
        f.keystore.unseal(0, &bogus, None, Rights::none()),
        Err(KeystoreError::UnknownSeal)
    );
}

#[test]
fn badge_scoped_to_encrypt_cannot_decrypt() {
    let mut f = setup();
    let key = f.keystore.generate_aead_key([1u8; AEAD_KEY_LEN]).unwrap();
    let badge = grant_access(&mut f, key, KeyOps::encrypt());

    let mut buf = [0u8; 4];
    let tag = [0u8; TAG_LEN];
    assert_eq!(
        f.keystore.decrypt(badge, key, &[0; NONCE_LEN], b"", &mut buf, &tag),
        Err(KeystoreError::OpNotGranted)
    );
}

#[test]
fn badge_scoped_to_a_different_key_is_rejected() {
    let mut f = setup();
    let key_a = f.keystore.generate_aead_key([1u8; AEAD_KEY_LEN]).unwrap();
    let key_b = f.keystore.generate_aead_key([2u8; AEAD_KEY_LEN]).unwrap();
    let badge = grant_access(&mut f, key_a, KeyOps::encrypt());

    let mut buf = [0u8; 4];
    assert_eq!(
        f.keystore.encrypt(badge, key_b, &[0; NONCE_LEN], b"", &mut buf),
        Err(KeystoreError::WrongKey)
    );
}

#[test]
fn revoked_badge_is_rejected() {
    let mut f = setup();
    let key = f.keystore.generate_aead_key([1u8; AEAD_KEY_LEN]).unwrap();
    let badge = grant_access(&mut f, key, KeyOps::encrypt());

    f.keystore.revoke_access(badge, Ok(())).unwrap();

    let mut buf = [0u8; 4];
    assert_eq!(
        f.keystore.encrypt(badge, key, &[0; NONCE_LEN], b"", &mut buf),
        Err(KeystoreError::BadgeRevoked)
    );
}

#[test]
fn unknown_badge_reads_as_revoked_deny_by_default() {
    let f = setup();
    let key = KeyId(0);
    let mut buf = [0u8; 4];
    assert_eq!(
        f.keystore.encrypt(999, key, &[0; NONCE_LEN], b"", &mut buf),
        Err(KeystoreError::BadgeRevoked)
    );
}

#[test]
fn destroyed_key_rejects_further_operations_even_with_a_valid_badge() {
    let mut f = setup();
    let key = f.keystore.generate_aead_key([1u8; AEAD_KEY_LEN]).unwrap();
    let badge = grant_access(&mut f, key, KeyOps::encrypt());

    f.keystore.destroy(key).unwrap();

    let mut buf = [0u8; 4];
    assert_eq!(
        f.keystore.encrypt(badge, key, &[0; NONCE_LEN], b"", &mut buf),
        Err(KeystoreError::KeyDestroyed)
    );
}

#[test]
fn requesting_wrong_purpose_ops_is_rejected_before_minting() {
    let mut f = setup();
    let key = f.keystore.generate_aead_key([1u8; AEAD_KEY_LEN]).unwrap();
    assert_eq!(
        f.keystore.request_key_access(key, KeyOps::sign(), SOURCE_SLOT, SCRATCH_SLOT),
        Err(KeystoreError::WrongPurpose)
    );
}

#[test]
fn destroyed_key_id_is_never_reused_by_a_later_generate_call() {
    let mut f = setup();
    let key_a = f.keystore.generate_aead_key([1u8; AEAD_KEY_LEN]).unwrap();
    f.keystore.destroy(key_a).unwrap();
    let key_b = f.keystore.generate_aead_key([2u8; AEAD_KEY_LEN]).unwrap();
    assert_ne!(key_a, key_b, "a destroyed slot must never be handed to a new, unrelated key");
}

#[test]
fn operations_are_sets_of_bits() {
    assert_eq!(KeyOps::none(), KeyOps(0));
    assert_eq!(KeyOps::encrypt(), KeyOps(1));
    assert_eq!(KeyOps::decrypt(), KeyOps(2));
    assert_eq!(KeyOps::sign(), KeyOps(4));
    assert_eq!(KeyOps::mac(), KeyOps(8));
    let both = KeyOps::encrypt().union(KeyOps::decrypt());
    assert_eq!(both, KeyOps(3));
    assert!(both.contains(KeyOps::decrypt()));
    assert!(both.contains(KeyOps::none()));
    assert!(!KeyOps::encrypt().contains(both));
    assert!(both.valid_for(KeyPurpose::Aead));
    assert!(!both.union(KeyOps::mac()).valid_for(KeyPurpose::Aead));
    assert!(KeyOps::sign().valid_for(KeyPurpose::Signing));
    assert!(!KeyOps::sign().valid_for(KeyPurpose::Mac));
    assert!(KeyOps::mac().valid_for(KeyPurpose::Mac));
    assert!(KeyOps::none().valid_for(KeyPurpose::Signing));
    assert!(KeyOps::encrypt().is_subset_of(both));
    assert!(!both.is_subset_of(KeyOps::encrypt()));
}

#[test]
fn the_mint_request_says_what_to_mint() {
    let mut f = setup();
    let key = f.keystore.generate_mac_key([1u8; MAC_KEY_LEN]).unwrap();
    assert_eq!(
        f.keystore.request_key_access(key, KeyOps::mac(), 5, 6),
        Ok(MintRequest {
            key,
            ops: KeyOps::mac(),
            source_slot: 5,
            scratch_slot: 6,
            rights: Rights::read().union(Rights::grant()),
        })
    );
}

#[test]
fn access_to_a_missing_or_destroyed_key_is_not_requested() {
    let mut f = setup();
    assert_eq!(
        f.keystore.request_key_access(KeyId(0), KeyOps::none(), 5, 6),
        Err(KeystoreError::NoSuchKey)
    );
    let key = f.keystore.generate_mac_key([1u8; MAC_KEY_LEN]).unwrap();
    let request = f.keystore.request_key_access(key, KeyOps::mac(), 5, 6).unwrap();
    f.keystore.destroy(key).unwrap();
    assert_eq!(
        f.keystore.request_key_access(key, KeyOps::mac(), 5, 6),
        Err(KeystoreError::KeyDestroyed)
    );
    assert_eq!(f.keystore.record_key_access(&request, Ok(1)), Err(KeystoreError::KeyDestroyed));
    assert_eq!(f.keystore.key_for_badge(1), None);
}

#[test]
fn kernel_errors_are_passed_on_and_change_nothing() {
    let mut f = setup();
    let error = SyscallError { code: 7 };
    let key = f.keystore.generate_mac_key([1u8; MAC_KEY_LEN]).unwrap();
    let request = f.keystore.request_key_access(key, KeyOps::mac(), 5, 6).unwrap();
    assert_eq!(
        f.keystore.record_key_access(&request, Err(error)),
        Err(KeystoreError::Kernel(error))
    );
    let badge = grant_access(&mut f, key, KeyOps::mac());
    assert_eq!(f.keystore.revoke_access(badge, Err(error)), Err(KeystoreError::Kernel(error)));
    assert!(f.keystore.mac(badge, key, b"m").is_ok());
    assert_eq!(f.keystore.deliver_grant(Err(error)), Err(KeystoreError::Kernel(error)));
    assert_eq!(f.keystore.deliver_grant_via_reply(Err(error)), Err(KeystoreError::Kernel(error)));
    assert_eq!(f.keystore.deliver_grant_via_reply(Ok(())), Ok(()));
}

#[test]
fn keys_run_out_and_destroying_frees_none() {
    let mut f = setup();
    for i in 0..16u16 {
        assert_eq!(f.keystore.generate_aead_key([i as u8; AEAD_KEY_LEN]), Ok(KeyId(i)));
    }
    f.keystore.destroy(KeyId(3)).unwrap();
    assert_eq!(
        f.keystore.generate_aead_key([0; AEAD_KEY_LEN]),
        Err(KeystoreError::NotEnoughCapacity)
    );
    assert_eq!(
        f.keystore.generate_signing_key([0; SEED_LEN]),
        Err(KeystoreError::NotEnoughCapacity)
    );
    assert_eq!(
        f.keystore.generate_mac_key([0; MAC_KEY_LEN]),
        Err(KeystoreError::NotEnoughCapacity)
    );
}

#[test]
fn grants_run_out_and_revoking_frees_none() {
    let mut f = setup();
    let key = f.keystore.generate_mac_key([1; MAC_KEY_LEN]).unwrap();
    let first = grant_access(&mut f, key, KeyOps::mac());
    for _ in 1..32 {
        grant_access(&mut f, key, KeyOps::mac());
    }
    f.keystore.revoke_access(first, Ok(())).unwrap();
    assert_eq!(
        f.keystore.request_key_access(key, KeyOps::mac(), 5, 6),
        Err(KeystoreError::NotEnoughCapacity)
    );
    assert!(f.keystore.mac(first + 31, key, b"m").is_ok());
}

#[test]
fn seals_run_out_after_too_many_caveats_is_said() {
    let mut f = setup();
    let key = f.keystore.generate_mac_key([1; MAC_KEY_LEN]).unwrap();
    let badge = grant_access(&mut f, key, KeyOps::mac());
    for i in 0..16u8 {
        assert!(f.keystore.seal(badge, key, [i; IDENTIFIER_LEN], &[]).is_ok());
    }
    assert_eq!(
        f.keystore.seal(badge, key, [99; IDENTIFIER_LEN], &[]),
        Err(KeystoreError::NotEnoughCapacity)
    );
    assert_eq!(
        f.keystore.seal(
            badge,
            key,
            [99; IDENTIFIER_LEN],
            &[Caveat::ExpiresAt(1); MAX_CAVEATS + 1]
        ),
        Err(KeystoreError::TooManyCaveats)
    );
}

#[test]
fn revocation_touches_one_badge_and_lasts() {
    let mut f = setup();
    let key = f.keystore.generate_mac_key([1; MAC_KEY_LEN]).unwrap();
    let a = grant_access(&mut f, key, KeyOps::mac());
    let b = grant_access(&mut f, key, KeyOps::mac());
    f.keystore.revoke_access(a, Ok(())).unwrap();
    assert_eq!(f.keystore.mac(a, key, b"m"), Err(KeystoreError::BadgeRevoked));
    assert!(f.keystore.mac(b, key, b"m").is_ok());
    assert_eq!(f.keystore.key_for_badge(a), Some(key));
    grant_access(&mut f, key, KeyOps::mac());
    f.keystore.revoke_access(a, Ok(())).unwrap();
    assert_eq!(f.keystore.mac(a, key, b"m"), Err(KeystoreError::BadgeRevoked));
}

#[test]
fn destruction_touches_one_key_and_lasts() {
    let mut f = setup();
    let a = f.keystore.generate_signing_key([1; SEED_LEN]).unwrap();
    let b = f.keystore.generate_signing_key([2; SEED_LEN]).unwrap();
    let badge_a = grant_access(&mut f, a, KeyOps::sign());
    let badge_b = grant_access(&mut f, b, KeyOps::sign());
    let sig = f.keystore.sign(badge_a, a, b"m").unwrap();
    f.keystore.destroy(a).unwrap();
    f.keystore.destroy(a).unwrap();
    assert_eq!(f.keystore.sign(badge_a, a, b"m"), Err(KeystoreError::KeyDestroyed));
    assert_eq!(f.keystore.verifying_key(a), Err(KeystoreError::KeyDestroyed));
    assert_eq!(f.keystore.verify(a, b"m", &sig), Err(KeystoreError::KeyDestroyed));
    let sig = f.keystore.sign(badge_b, b, b"m").unwrap();
    assert_eq!(f.keystore.verify(b, b"m", &sig), Ok(()));
    assert_eq!(f.keystore.destroy(KeyId(2)), Err(KeystoreError::NoSuchKey));
}

#[test]
fn verification_names_its_failures() {
    let mut f = setup();
    let sig = [0u8; SIGNATURE_LEN];
    assert_eq!(f.keystore.verifying_key(KeyId(0)), Err(KeystoreError::NoSuchKey));
    assert_eq!(f.keystore.verify(KeyId(0), b"m", &sig), Err(KeystoreError::NoSuchKey));
    let aead = f.keystore.generate_aead_key([1; AEAD_KEY_LEN]).unwrap();
    assert_eq!(f.keystore.verifying_key(aead), Err(KeystoreError::WrongPurpose));
    let key = f.keystore.generate_signing_key([1; SEED_LEN]).unwrap();
    assert_eq!(f.keystore.verify(key, b"m", &sig), Err(KeystoreError::CryptoFailure));
}

#[test]
fn a_wrong_tag_is_a_crypto_failure_and_keeps_the_ciphertext() {
    let mut f = setup();
    let key = f.keystore.generate_aead_key([1; AEAD_KEY_LEN]).unwrap();
    let badge = grant_access(&mut f, key, KeyOps::decrypt());
    let mut buf = *b"evil";
    assert_eq!(
        f.keystore.decrypt(badge, key, &[0; NONCE_LEN], b"", &mut buf, &[0; TAG_LEN]),
        Err(KeystoreError::CryptoFailure)
    );
    assert_eq!(&buf, b"evil");
}

#[test]
fn a_denied_encryption_leaves_the_buffer_alone() {
    let mut f = setup();
    let key = f.keystore.generate_aead_key([1; AEAD_KEY_LEN]).unwrap();
    let badge = grant_access(&mut f, key, KeyOps::decrypt());
    let mut buf = *b"text";
    assert_eq!(
        f.keystore.encrypt(badge, key, &[0; NONCE_LEN], b"", &mut buf),
        Err(KeystoreError::OpNotGranted)
    );
    assert_eq!(&buf, b"text");
}

#[test]
fn one_badge_encrypts_what_another_decrypts() {
    let mut f = setup();
    let key = f.keystore.generate_aead_key([1; AEAD_KEY_LEN]).unwrap();
    let writer = grant_access(&mut f, key, KeyOps::encrypt());
    let mut buf = *b"text";
    let tag = f.keystore.encrypt(writer, key, &[9; NONCE_LEN], b"aad", &mut buf).unwrap();
    f.keystore.revoke_access(writer, Ok(())).unwrap();
    let reader = grant_access(&mut f, key, KeyOps::decrypt());
    assert_eq!(
        f.keystore.decrypt(reader, key, &[9; NONCE_LEN], b"aad", &mut buf, &tag),
        Ok(())
    );
    assert_eq!(&buf, b"text");
}

#[test]
fn revoking_an_identifier_covers_attenuated_and_resealed_tokens() {
    let mut f = setup();
    let key = f.keystore.generate_mac_key([6; MAC_KEY_LEN]).unwrap();
    let badge = grant_access(&mut f, key, KeyOps::mac());
    let id = [1; IDENTIFIER_LEN];
    assert_eq!(f.keystore.revoke_seal(&id), Err(KeystoreError::UnknownSeal));
    let token = f.keystore.seal(badge, key, id, &[]).unwrap();
    let narrowed = attenuate(&token, Caveat::ExpiresAt(10)).unwrap();
    assert_eq!(f.keystore.unseal(badge, &narrowed, Some(1), Rights::none()), Ok(()));
    let other = f.keystore.seal(badge, key, [2; IDENTIFIER_LEN], &[]).unwrap();
    f.keystore.revoke_seal(&id).unwrap();
    f.keystore.revoke_seal(&id).unwrap();
    let again = f.keystore.seal(badge, key, id, &[]).unwrap();
    for t in [token, narrowed, again] {
        assert_eq!(
            f.keystore.unseal(badge, &t, Some(1), Rights::none()),
            Err(KeystoreError::SealRevoked)
        );
    }
    assert_eq!(f.keystore.unseal(badge, &other, None, Rights::none()), Ok(()));
}

#[test]
fn resealing_an_identifier_under_the_same_key_unseals() {
    let mut f = setup();
    let key = f.keystore.generate_mac_key([6; MAC_KEY_LEN]).unwrap();
    let badge = grant_access(&mut f, key, KeyOps::mac());
    let id = [1; IDENTIFIER_LEN];
    f.keystore.seal(badge, key, id, &[]).unwrap();
    let second = f.keystore.seal(badge, key, id, &[Caveat::ExpiresAt(3)]).unwrap();
    assert_eq!(f.keystore.unseal(badge, &second, Some(3), Rights::all()), Ok(()));
}

#[test]
fn unsealing_takes_a_badge_for_the_root_key_and_a_genuine_token() {
    let mut f = setup();
    let key = f.keystore.generate_mac_key([6; MAC_KEY_LEN]).unwrap();
    let other = f.keystore.generate_mac_key([7; MAC_KEY_LEN]).unwrap();
    let badge = grant_access(&mut f, key, KeyOps::mac());
    let stranger = grant_access(&mut f, other, KeyOps::mac());
    let powerless = grant_access(&mut f, key, KeyOps::none());
    let id = [1; IDENTIFIER_LEN];
    let token = f.keystore.seal(badge, key, id, &[]).unwrap();
    let unseal = |f: &Fixture, badge: u64, t: &SealedToken| {
        f.keystore.unseal(badge, t, None, Rights::none())
    };
    assert_eq!(unseal(&f, badge, &token), Ok(()));
    assert_eq!(unseal(&f, stranger, &token), Err(KeystoreError::WrongKey));
    assert_eq!(unseal(&f, powerless, &token), Err(KeystoreError::OpNotGranted));
    assert_eq!(unseal(&f, 999, &token), Err(KeystoreError::BadgeRevoked));
    let forged = seal(&MacKey::from_random_bytes([9; MAC_KEY_LEN]), id, &[]).unwrap();
    assert_eq!(unseal(&f, badge, &forged), Err(KeystoreError::TokenInvalid));
    f.keystore.destroy(key).unwrap();
    assert_eq!(unseal(&f, badge, &token), Err(KeystoreError::KeyDestroyed));
}

#[test]
fn a_mac_of_the_keystore_is_the_mac_of_its_key() {
    let mut f = setup();
    let key = f.keystore.generate_mac_key([4; MAC_KEY_LEN]).unwrap();
    let badge = grant_access(&mut f, key, KeyOps::mac());
    let expected = MacKey::from_random_bytes([4; MAC_KEY_LEN]).compute(b"m");
    assert_eq!(f.keystore.mac(badge, key, b"m"), Ok(expected));
    assert_eq!(
        f.keystore.verify_mac(badge, key, b"n", &expected),
        Err(KeystoreError::CryptoFailure)
    );
    assert_eq!(
        f.keystore.verify_mac(999, key, b"m", &expected),
        Err(KeystoreError::BadgeRevoked)
    );
}

#[test]
fn what_unseals_keeps_unsealing_whatever_else_happens() {
    let mut f = setup();
    let key = f.keystore.generate_mac_key([6; MAC_KEY_LEN]).unwrap();
    let badge = grant_access(&mut f, key, KeyOps::mac());
    let token = f.keystore.seal(badge, key, [1; IDENTIFIER_LEN], &[Caveat::ExpiresAt(9)]).unwrap();
    assert_eq!(f.keystore.unseal(badge, &token, Some(9), Rights::all()), Ok(()));

    let other = f.keystore.generate_mac_key([7; MAC_KEY_LEN]).unwrap();
    let stranger = grant_access(&mut f, other, KeyOps::mac());
    // The same identifier again, under another key: the first one stands.
    f.keystore.seal(stranger, other, [1; IDENTIFIER_LEN], &[]).unwrap();
    f.keystore.seal(stranger, other, [2; IDENTIFIER_LEN], &[]).unwrap();
    f.keystore.revoke_seal(&[2; IDENTIFIER_LEN]).unwrap();
    f.keystore.revoke_access(stranger, Ok(())).unwrap();
    f.keystore.destroy(other).unwrap();
    assert_eq!(f.keystore.unseal(badge, &token, Some(9), Rights::all()), Ok(()));
}

#[test]
fn revoking_an_unknown_badge_lasts_even_if_it_is_granted_later() {
    let mut f = setup();
    let key = f.keystore.generate_mac_key([1; MAC_KEY_LEN]).unwrap();
    let badge = grant_access(&mut f, key, KeyOps::mac());
    assert_eq!(f.keystore.revoke_access(999, Ok(())), Ok(()));
    assert_eq!(f.keystore.revoke_access(999, Ok(())), Ok(()));
    assert_eq!(f.keystore.mac(999, key, b"m"), Err(KeystoreError::BadgeRevoked));
    assert_eq!(f.keystore.key_for_badge(999), None);
    assert!(f.keystore.mac(badge, key, b"m").is_ok());

    let request = f.keystore.request_key_access(key, KeyOps::mac(), 5, 6).unwrap();
    assert_eq!(f.keystore.record_key_access(&request, Ok(999)), Ok(999));
    assert_eq!(f.keystore.mac(999, key, b"m"), Err(KeystoreError::BadgeRevoked));
    assert_eq!(f.keystore.key_for_badge(999), Some(key));
    assert!(f.keystore.mac(badge, key, b"m").is_ok());
}
