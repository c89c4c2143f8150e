//! Signatures.

use lantern_crypto::signing::{verify, SigningError, SigningKey, SEED_LEN, SIGNATURE_LEN};

fn unhex<const N: usize>(text: &str) -> [u8; N] {
    let mut out = [0u8; N];
    for i in 0..N {
        out[i] = u8::from_str_radix(&text[2 * i..2 * i + 2], 16).unwrap();
    }
    out
}

#[test]
fn round_trips() {
    let key = SigningKey::from_random_bytes([9u8; SEED_LEN]);
    let sig = key.sign(b"a message");
    verify(&key.verifying_key(), b"a message", &sig).unwrap();
}

#[test]
fn tampered_message_fails_verification() {
    let key = SigningKey::from_random_bytes([9u8; SEED_LEN]);
    let sig = key.sign(b"a message");
    assert!(verify(&key.verifying_key(), b"a different message", &sig).is_err());
}

#[test]
fn wrong_key_fails_verification() {
    let key = SigningKey::from_random_bytes([9u8; SEED_LEN]);
    let other = SigningKey::from_random_bytes([1u8; SEED_LEN]);
    let sig = key.sign(b"a message");
    assert!(verify(&other.verifying_key(), b"a message", &sig).is_err());
}

#[test]
fn published_signature_is_reproduced() {
    let seed = unhex("9d61b19deffd5a60ba844af492ec2cc44449c5697b326919703bac031cae7f60");
    let key = SigningKey::from_random_bytes(seed);
    assert_eq!(
        key.verifying_key(),
        unhex("d75a980182b10ab7d54bfed3c964073a0ee172f3daa62325af021a68f707511a")
    );
    let first: [u8; 32] =
        unhex("e5564300c360ac729086e2cc806e828a84877f1eb8e5d974d873e06522490155");
    let second: [u8; 32] =
        unhex("5fb8821590a33bacc61e39701cf9b46bd25bf5f0595bbe24655141438e7a100b");
    let sig = key.sign(b"");
    assert_eq!(sig[..32], first);
    assert_eq!(sig[32..], second);
}

#[test]
fn signing_is_deterministic() {
    let key = SigningKey::from_random_bytes([9u8; SEED_LEN]);
    let again = SigningKey::from_random_bytes([9u8; SEED_LEN]);
    assert_eq!(key.sign(b"m"), again.sign(b"m"));
    assert_ne!(key.sign(b"m"), key.sign(b"n"));
}

#[test]
fn a_malformed_public_key_or_signature_is_an_error() {
    let key = SigningKey::from_random_bytes([9u8; SEED_LEN]);
    let sig = key.sign(b"m");
    // No point on the curve has this encoding.
    let mut bad_key = [0u8; 32];
    bad_key[0] = 2;
    assert_eq!(verify(&bad_key, b"m", &sig), Err(SigningError));
    assert_eq!(
        verify(&key.verifying_key(), b"m", &[0xff; SIGNATURE_LEN]),
        Err(SigningError)
    );
}
