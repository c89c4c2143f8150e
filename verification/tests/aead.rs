//! Authenticated encryption.

use lantern_crypto::aead::{
    keystream_reaches, AeadError, AeadKey, AEAD_KEY_LEN, NONCE_LEN, TAG_LEN,
};

#[test]
fn round_trips_and_authenticates() {
    let key = AeadKey::from_random_bytes([7u8; AEAD_KEY_LEN]);
    let nonce = [3u8; NONCE_LEN];
    let mut buf = *b"a secret message";
    let tag = key.encrypt_in_place_detached(&nonce, b"ctx", &mut buf).unwrap();
    assert_ne!(&buf[..], b"a secret message");

    key.decrypt_in_place_detached(&nonce, b"ctx", &mut buf, &tag).unwrap();
    assert_eq!(&buf[..], b"a secret message");
}

#[test]
fn tampered_ciphertext_fails_to_decrypt() {
    let key = AeadKey::from_random_bytes([7u8; AEAD_KEY_LEN]);
    let nonce = [3u8; NONCE_LEN];
    let mut buf = *b"a secret message";
    let tag = key.encrypt_in_place_detached(&nonce, b"ctx", &mut buf).unwrap();

    buf[0] ^= 1;
    assert!(key.decrypt_in_place_detached(&nonce, b"ctx", &mut buf, &tag).is_err());
}

#[test]
fn wrong_aad_fails_to_decrypt() {
    let key = AeadKey::from_random_bytes([7u8; AEAD_KEY_LEN]);
    let nonce = [3u8; NONCE_LEN];
    let mut buf = *b"a secret message";
    let tag = key.encrypt_in_place_detached(&nonce, b"ctx", &mut buf).unwrap();

    assert!(key.decrypt_in_place_detached(&nonce, b"other", &mut buf, &tag).is_err());
}

#[test]
fn published_vector_is_reproduced() {
    let mut key_bytes = [0u8; AEAD_KEY_LEN];
    for (i, b) in key_bytes.iter_mut().enumerate() {
        *b = 0x80 + i as u8;
    }
    let mut nonce = [0u8; NONCE_LEN];
    for (i, b) in nonce.iter_mut().enumerate() {
        *b = 0x40 + i as u8;
    }
    let aad = [0x50, 0x51, 0x52, 0x53, 0xc0, 0xc1, 0xc2, 0xc3, 0xc4, 0xc5, 0xc6, 0xc7];
    let text = b"Ladies and Gentlemen of the class of '99: \
If I could offer you only one tip for the future, sunscreen would be it.";
    let mut buf = text.to_vec();
    let key = AeadKey::from_random_bytes(key_bytes);
    let tag = key.encrypt_in_place_detached(&nonce, &aad, &mut buf).unwrap();
    assert_eq!(buf.len(), 114);
    assert_eq!(buf[..8], [0xbd, 0x6d, 0x17, 0x9d, 0x3e, 0x83, 0xd4, 0x3b]);
    assert_eq!(
        tag,
        [
            0xc0, 0x87, 0x59, 0x24, 0xc1, 0xc7, 0x98, 0x79, 0x47, 0xde, 0xaf, 0xd8, 0x78, 0x0a,
            0xcf, 0x49
        ]
    );
    key.decrypt_in_place_detached(&nonce, &aad, &mut buf, &tag).unwrap();
    assert_eq!(buf, text.to_vec());
}

#[test]
fn a_refused_ciphertext_stays_in_the_buffer() {
    let key = AeadKey::from_random_bytes([7u8; AEAD_KEY_LEN]);
    let mut buf = *b"not a ciphertext";
    let refused =
        key.decrypt_in_place_detached(&[0; NONCE_LEN], b"", &mut buf, &[0xAA; TAG_LEN]);
    assert_eq!(refused, Err(AeadError));
    assert_eq!(&buf, b"not a ciphertext");
}

#[test]
fn every_other_tag_is_refused() {
    let key = AeadKey::from_random_bytes([1u8; AEAD_KEY_LEN]);
    let nonce = [2u8; NONCE_LEN];
    let mut buf = *b"payload";
    let tag = key.encrypt_in_place_detached(&nonce, b"a", &mut buf).unwrap();
    for i in 0..TAG_LEN {
        let mut other = tag;
        other[i] ^= 0x80;
        let mut copy = buf;
        assert_eq!(key.decrypt_in_place_detached(&nonce, b"a", &mut copy, &other), Err(AeadError));
        assert_eq!(copy, buf);
    }
    assert_eq!(key.decrypt_in_place_detached(&nonce, b"a", &mut buf, &tag), Ok(()));
}

#[test]
fn an_empty_buffer_is_authenticated_too() {
    let key = AeadKey::from_random_bytes([1u8; AEAD_KEY_LEN]);
    let nonce = [2u8; NONCE_LEN];
    let tag = key.encrypt_in_place_detached(&nonce, b"only this", &mut []).unwrap();
    assert_eq!(key.decrypt_in_place_detached(&nonce, b"only this", &mut [], &tag), Ok(()));
    assert_eq!(
        key.decrypt_in_place_detached(&nonce, b"only that", &mut [], &tag),
        Err(AeadError)
    );
}

#[test]
fn lengths_that_the_cipher_can_take() {
    assert!(keystream_reaches(0));
    assert!(keystream_reaches(1 << 20));
    let last: u64 = 64 * 0xffff_fffe;
    for (len, reaches) in
        [(last, true), (last + 1, false), (last + 63, false), (last + 64, true)]
    {
        if let Ok(len) = usize::try_from(len) {
            assert_eq!(keystream_reaches(len), reaches);
        }
    }
}
