//! Sealed tokens: the MAC chain and the caveats.

use lantern_crypto::hash::{hash, MacKey, MAC_KEY_LEN};
use lantern_crypto::kernel::Rights;
use lantern_crypto::sealed::{
    attenuate, caveats_satisfied, seal, verify_chain, Caveat, SealedError, SealedToken,
    IDENTIFIER_LEN, MAX_CAVEATS,
};

const ID: [u8; IDENTIFIER_LEN] = [7u8; IDENTIFIER_LEN];

fn root() -> MacKey {
    MacKey::from_random_bytes([1u8; MAC_KEY_LEN])
}

#[test]
fn a_freshly_sealed_token_verifies_against_its_root_key() {
    let token = seal(&root(), ID, &[]).unwrap();
    assert!(verify_chain(&root(), &token));
}

#[test]
fn verification_fails_under_the_wrong_root_key() {
    let token = seal(&root(), ID, &[]).unwrap();
    let wrong = MacKey::from_random_bytes([2u8; MAC_KEY_LEN]);
    assert!(!verify_chain(&wrong, &token));
}

#[test]
fn attenuation_needs_no_root_key_and_still_verifies() {
    let token = seal(&root(), ID, &[Caveat::RightsSubset(Rights::all())]).unwrap();
    let narrowed = attenuate(&token, Caveat::ExpiresAt(1000)).unwrap();
    assert_eq!(narrowed.caveats().len(), 2);
    assert!(verify_chain(&root(), &narrowed));
}

#[test]
fn tampering_with_a_caveat_after_the_fact_fails_verification() {
    let token = seal(&root(), ID, &[Caveat::RightsSubset(Rights::read())]).unwrap();
    // A forger rewrites a caveat without redoing the chain: the stored MAC no
    // longer is what chaining gives.
    let token = SealedToken::from_parts(
        *token.identifier(),
        &[Caveat::RightsSubset(Rights::all())],
        *token.mac(),
    )
    .unwrap();
    assert!(!verify_chain(&root(), &token));
}

#[test]
fn too_many_caveats_is_rejected() {
    let caveats = [Caveat::ExpiresAt(1); MAX_CAVEATS + 1];
    assert_eq!(seal(&root(), ID, &caveats), Err(SealedError));
}

#[test]
fn a_full_token_takes_no_further_caveat() {
    let token = seal(&root(), ID, &[Caveat::ExpiresAt(1); MAX_CAVEATS]).unwrap();
    assert_eq!(token.caveats().len(), MAX_CAVEATS);
    assert!(verify_chain(&root(), &token));
    assert_eq!(attenuate(&token, Caveat::ExpiresAt(2)), Err(SealedError));
    assert_eq!(
        SealedToken::from_parts(ID, &[Caveat::ExpiresAt(1); MAX_CAVEATS + 1], *token.mac()),
        Err(SealedError)
    );
}

#[test]
fn the_chain_is_the_documented_one() {
    let time = 0x0102_0304_0506_0708u64;
    let token = seal(
        &root(),
        ID,
        &[Caveat::RightsSubset(Rights(0xA5)), Caveat::ExpiresAt(time)],
    )
    .unwrap();
    let first = root().compute(&ID);
    let second = MacKey::from_bytes(*first.as_bytes()).compute(&[0, 0xA5, 0, 0, 0, 0, 0, 0, 0]);
    let third = MacKey::from_bytes(*second.as_bytes()).compute(&[1, 1, 2, 3, 4, 5, 6, 7, 8]);
    assert_eq!(*token.mac(), third);
    assert_eq!(token.identifier(), &ID);
    assert_eq!(
        token.caveats(),
        &[Some(Caveat::RightsSubset(Rights(0xA5))), Some(Caveat::ExpiresAt(time))]
    );
}

#[test]
fn attenuating_is_sealing_with_one_more_caveat() {
    let early = Caveat::ExpiresAt(5);
    let late = Caveat::RightsSubset(Rights::read());
    let sealed = seal(&root(), ID, &[early, late]).unwrap();
    let attenuated = attenuate(&seal(&root(), ID, &[early]).unwrap(), late).unwrap();
    assert_eq!(sealed, attenuated);
}

#[test]
fn dropping_or_swapping_caveats_breaks_the_chain() {
    let a = Caveat::ExpiresAt(5);
    let b = Caveat::RightsSubset(Rights::read());
    let token = seal(&root(), ID, &[a, b]).unwrap();
    let dropped = SealedToken::from_parts(ID, &[a], *token.mac()).unwrap();
    let swapped = SealedToken::from_parts(ID, &[b, a], *token.mac()).unwrap();
    let renamed = SealedToken::from_parts([8; IDENTIFIER_LEN], &[a, b], *token.mac()).unwrap();
    let same = SealedToken::from_parts(ID, &[a, b], *token.mac()).unwrap();
    assert!(!verify_chain(&root(), &dropped));
    assert!(!verify_chain(&root(), &swapped));
    assert!(!verify_chain(&root(), &renamed));
    assert!(verify_chain(&root(), &same));
    assert_eq!(same, token);
}

#[test]
fn a_made_up_mac_does_not_verify() {
    let token = SealedToken::from_parts(ID, &[], hash(b"made up")).unwrap();
    assert!(!verify_chain(&root(), &token));
}

#[test]
fn caveats_admit_what_they_say() {
    let token = seal(
        &root(),
        ID,
        &[Caveat::RightsSubset(Rights::read().union(Rights::grant())), Caveat::ExpiresAt(10)],
    )
    .unwrap();
    assert!(caveats_satisfied(&token, Some(10), Rights::read()));
    assert!(caveats_satisfied(&token, Some(0), Rights::none()));
    assert!(caveats_satisfied(&token, Some(9), Rights::grant().union(Rights::read())));
    assert!(!caveats_satisfied(&token, Some(11), Rights::read()));
    assert!(!caveats_satisfied(&token, None, Rights::read()));
    assert!(!caveats_satisfied(&token, Some(10), Rights::write()));
    assert!(!caveats_satisfied(&token, Some(10), Rights::all()));
    let free = seal(&root(), ID, &[]).unwrap();
    assert!(caveats_satisfied(&free, None, Rights::all()));
}

#[test]
fn rights_are_sets_of_bits() {
    assert_eq!(Rights::none().bits(), 0);
    assert_eq!(Rights::read().bits(), 1);
    assert_eq!(Rights::write().bits(), 2);
    assert_eq!(Rights::grant().bits(), 4);
    assert_eq!(Rights::all(), Rights::read().union(Rights::write()).union(Rights::grant()));
    assert!(Rights::read().is_subset_of(Rights::all()));
    assert!(!Rights::all().is_subset_of(Rights::read()));
    assert!(Rights::none().is_subset_of(Rights::none()));
}

#[test]
fn caveats_encode_to_nine_bytes_that_tell_them_apart() {
    assert_eq!(Caveat::RightsSubset(Rights(0xA5)).encode(), [0, 0xA5, 0, 0, 0, 0, 0, 0, 0]);
    assert_eq!(
        Caveat::ExpiresAt(0x0102_0304_0506_0708).encode(),
        [1, 1, 2, 3, 4, 5, 6, 7, 8]
    );
    assert_ne!(
        Caveat::RightsSubset(Rights::none()).encode(),
        Caveat::ExpiresAt(0).encode()
    );
}
