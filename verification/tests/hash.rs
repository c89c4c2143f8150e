//! Hashing and message authentication codes.

use lantern_crypto::hash::{hash, Hasher, MacError, MacKey, MAC_KEY_LEN};

fn hex(bytes: &[u8]) -> String {
    let mut out = String::new();
    for b in bytes {
        out.push_str(&format!("{:02x}", b));
    }
    out
}

#[test]
fn hash_is_deterministic_and_content_dependent() {
    assert_eq!(hash(b"hello"), hash(b"hello"));
    assert_ne!(hash(b"hello"), hash(b"world"));
}

#[test]
fn hasher_streaming_matches_one_shot() {
    let mut h = Hasher::new();
    h.update(b"hel").update(b"lo");
    assert_eq!(h.finalize(), hash(b"hello"));
}

#[test]
fn mac_round_trips_and_rejects_tampering() {
    let key = MacKey::from_random_bytes([5u8; MAC_KEY_LEN]);
    let mac = key.compute(b"a message");
    key.verify(b"a message", &mac).unwrap();
    assert!(key.verify(b"a different message", &mac).is_err());
}

#[test]
fn mac_is_keyed_not_just_a_hash() {
    let key_a = MacKey::from_random_bytes([1u8; MAC_KEY_LEN]);
    let key_b = MacKey::from_random_bytes([2u8; MAC_KEY_LEN]);
    assert_ne!(key_a.compute(b"same data"), key_b.compute(b"same data"));
}

#[test]
fn published_hashes_are_reproduced() {
    assert_eq!(
        hex(hash(b"").as_bytes()),
        "af1349b9f5f9a1a6a0404dea36dcc9499bcb25c9adc112b7cc9a93cae41f3262"
    );
    assert_eq!(
        hex(hash(b"abc").as_bytes()),
        "6437b3ac38465133ffb63b75273a8db548c558465d79db03fd359c6cd5bd9d85"
    );
}

#[test]
fn published_keyed_hash_is_reproduced() {
    let key = MacKey::from_bytes(*b"whats the Elvish word for friend");
    assert_eq!(
        hex(key.compute(b"").as_bytes()),
        "92b2b75604ed3c761f9d6f62392c8a9227ad0ea3f09573e783f1498a4ed60d26"
    );
}

#[test]
fn a_default_hasher_has_been_fed_nothing() {
    assert_eq!(Hasher::default().finalize(), hash(b""));
}

#[test]
fn a_hasher_can_be_fed_on_after_finalizing() {
    let mut h = Hasher::new();
    h.update(b"ab");
    assert_eq!(h.finalize(), hash(b"ab"));
    h.update(b"");
    h.update(b"c");
    assert_eq!(h.finalize(), hash(b"abc"));
}

#[test]
fn pieces_of_any_size_hash_to_the_whole() {
    let data: Vec<u8> = (0..5000u32).map(|i| (i % 251) as u8).collect();
    for size in [1usize, 63, 64, 65, 1024, 4999] {
        let mut h = Hasher::new();
        for piece in data.chunks(size) {
            h.update(piece);
        }
        assert_eq!(h.finalize(), hash(&data));
    }
}

#[test]
fn constant_time_equality_tells_hashes_apart() {
    assert!(hash(b"x").ct_eq(&hash(b"x")));
    assert!(!hash(b"x").ct_eq(&hash(b"y")));
}

#[test]
fn a_mac_verifies_under_no_other_key() {
    let key = MacKey::from_random_bytes([1u8; MAC_KEY_LEN]);
    let mac = key.compute(b"m");
    let other = MacKey::from_random_bytes([2u8; MAC_KEY_LEN]);
    assert_eq!(key.verify(b"m", &mac), Ok(()));
    assert_eq!(other.verify(b"m", &mac), Err(MacError));
    assert_eq!(key.verify(b"m", &hash(b"m")), Err(MacError));
}
