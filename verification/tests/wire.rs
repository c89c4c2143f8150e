//! The wire format.

use lantern_crypto::aead::{AEAD_KEY_LEN, NONCE_LEN, TAG_LEN};
use lantern_crypto::hash::MAC_KEY_LEN;
use lantern_crypto::kernel::SyscallError;
use lantern_crypto::signing::{SEED_LEN, SIGNATURE_LEN};
use lantern_crypto::wire::{
    decode_decrypt_reply, decode_encrypt_reply, decode_sign_reply, encode_decrypt_request,
    encode_encrypt_request, encode_sign_request, finish_decrypt, finish_encrypt, handle_request,
    read_prefixed, request_is_covered, sign_reply, status, status_for, write_prefixed, OP_DECRYPT, OP_ENCRYPT, OP_SIGN,
};
use lantern_crypto::{KeyId, KeyOps, Keystore, KeystoreError};

#[test]
fn encrypt_request_round_trips_through_encode_and_the_server_side_parser() {
    let nonce = [1u8; NONCE_LEN];
    let aad = b"context";
    let plaintext = b"a plaintext message";
    let mut buf = [0u8; 128];
    let len = encode_encrypt_request(&nonce, aad, plaintext, &mut buf).unwrap();

    let (parsed_nonce, rest) = read_prefixed(&buf[..len]).unwrap();
    assert_eq!(parsed_nonce, &nonce);
    let (parsed_aad, parsed_plaintext) = read_prefixed(rest).unwrap();
    assert_eq!(parsed_aad, aad);
    assert_eq!(parsed_plaintext, plaintext);
}

#[test]
fn encrypt_request_too_small_a_buffer_is_none() {
    let nonce = [1u8; NONCE_LEN];
    let mut tiny = [0u8; 4];
    assert_eq!(encode_encrypt_request(&nonce, b"aad", b"plaintext", &mut tiny), None);
}

#[test]
fn encrypt_reply_round_trips() {
    let tag = [7u8; TAG_LEN];
    let ciphertext = b"ciphertext bytes";
    let mut buf = [0u8; 64];
    let end = write_prefixed(&mut buf, 0, &tag).unwrap();
    buf[end..end + ciphertext.len()].copy_from_slice(ciphertext);
    let total = end + ciphertext.len();

    let (decoded_tag, decoded_ciphertext) = decode_encrypt_reply(&buf[..total]).unwrap();
    assert_eq!(decoded_tag, tag);
    assert_eq!(decoded_ciphertext, ciphertext);
}

#[test]
fn encrypt_reply_with_a_wrong_length_tag_is_none() {
    // A 4-byte "tag": the length prefix says 4, not TAG_LEN.
    let mut buf = [0u8; 16];
    buf[0..4].copy_from_slice(&4u32.to_le_bytes());
    buf[4..8].copy_from_slice(&[9u8; 4]);
    assert_eq!(decode_encrypt_reply(&buf[..8]), None);
}

#[test]
fn decrypt_request_round_trips_through_encode_and_the_server_side_parser() {
    let nonce = [2u8; NONCE_LEN];
    let aad = b"ctx";
    let tag = [3u8; TAG_LEN];
    let ciphertext = b"encrypted bytes here";
    let mut buf = [0u8; 128];
    let len = encode_decrypt_request(&nonce, aad, &tag, ciphertext, &mut buf).unwrap();

    let (parsed_nonce, rest) = read_prefixed(&buf[..len]).unwrap();
    assert_eq!(parsed_nonce, &nonce);
    let (parsed_aad, rest) = read_prefixed(rest).unwrap();
    assert_eq!(parsed_aad, aad);
    let (parsed_tag, parsed_ciphertext) = read_prefixed(rest).unwrap();
    assert_eq!(parsed_tag, &tag);
    assert_eq!(parsed_ciphertext, ciphertext);
}

#[test]
fn sign_codec_is_the_identity() {
    assert_eq!(encode_sign_request(b"hello"), b"hello");
    assert_eq!(decode_sign_reply(b"a signature"), b"a signature");
    assert_eq!(decode_decrypt_reply(b"plaintext"), b"plaintext");
}

/// A keystore with a badge for `ops` on one key.
fn granted_keystore(
    ops: KeyOps,
    make_key: impl FnOnce(&mut Keystore) -> KeyId,
) -> (Keystore, u64, KeyId) {
    let mut keystore = Keystore::new();
    let key = make_key(&mut keystore);
    let request = keystore.request_key_access(key, ops, 5, 6).unwrap();
    let badge = keystore.record_key_access(&request, Ok(1)).unwrap();
    (keystore, badge, key)
}

fn granted_encrypt_decrypt_keystore() -> (Keystore, u64, KeyId) {
    granted_keystore(KeyOps::encrypt().union(KeyOps::decrypt()), |ks| {
        ks.generate_aead_key([9u8; AEAD_KEY_LEN]).unwrap()
    })
}

fn granted_sign_keystore() -> (Keystore, u64, KeyId) {
    granted_keystore(KeyOps::sign(), |ks| ks.generate_signing_key([2u8; SEED_LEN]).unwrap())
}

#[test]
fn sign_round_trips_through_the_wire_format() {
    let (keystore, badge, key) = granted_sign_keystore();

    let mut reply = [0u8; 128];
    let (s, len) = handle_request(&keystore, badge, OP_SIGN, b"hello wire", &mut reply);
    assert_eq!(s, status::OK);
    assert_eq!(len, SIGNATURE_LEN);
    keystore.verify(key, b"hello wire", reply[..len].try_into().unwrap()).unwrap();
}

#[test]
fn encrypt_then_decrypt_round_trips_through_the_wire_format() {
    let (keystore, badge, _key) = granted_encrypt_decrypt_keystore();

    let nonce = [7u8; NONCE_LEN];
    let aad = b"ctx";
    let plaintext = b"a shared-frame secret";
    let mut request = [0u8; 128];
    let mut off = 0;
    request[off..off + 4].copy_from_slice(&(NONCE_LEN as u32).to_le_bytes());
    off += 4;
    request[off..off + NONCE_LEN].copy_from_slice(&nonce);
    off += NONCE_LEN;
    request[off..off + 4].copy_from_slice(&(aad.len() as u32).to_le_bytes());
    off += 4;
    request[off..off + aad.len()].copy_from_slice(aad);
    off += aad.len();
    request[off..off + plaintext.len()].copy_from_slice(plaintext);
    off += plaintext.len();

    let mut reply = [0u8; 128];
    let (s, len) = handle_request(&keystore, badge, OP_ENCRYPT, &request[..off], &mut reply);
    assert_eq!(s, status::OK);
    let tag_len = u32::from_le_bytes(reply[0..4].try_into().unwrap()) as usize;
    assert_eq!(tag_len, TAG_LEN);
    let tag = &reply[4..4 + TAG_LEN];
    let ciphertext = &reply[4 + TAG_LEN..len];
    assert_ne!(ciphertext, plaintext);

    // DECRYPT request: [nonce_len][nonce][aad_len][aad][tag_len][tag][ciphertext]
    let mut decrypt_req = [0u8; 128];
    let mut off = 0;
    decrypt_req[off..off + 4].copy_from_slice(&(NONCE_LEN as u32).to_le_bytes());
    off += 4;
    decrypt_req[off..off + NONCE_LEN].copy_from_slice(&nonce);
    off += NONCE_LEN;
    decrypt_req[off..off + 4].copy_from_slice(&(aad.len() as u32).to_le_bytes());
    off += 4;
    decrypt_req[off..off + aad.len()].copy_from_slice(aad);
    off += aad.len();
    decrypt_req[off..off + 4].copy_from_slice(&(TAG_LEN as u32).to_le_bytes());
    off += 4;
    decrypt_req[off..off + TAG_LEN].copy_from_slice(tag);
    off += TAG_LEN;
    decrypt_req[off..off + ciphertext.len()].copy_from_slice(ciphertext);
    off += ciphertext.len();

    let mut decrypted = [0u8; 128];
    let (s, len) =
        handle_request(&keystore, badge, OP_DECRYPT, &decrypt_req[..off], &mut decrypted);
    assert_eq!(s, status::OK);
    assert_eq!(&decrypted[..len], plaintext);
}

#[test]
fn decrypt_with_a_tampered_tag_fails_and_leaks_nothing() {
    let (keystore, badge, _key) = granted_encrypt_decrypt_keystore();
    let nonce = [7u8; NONCE_LEN];
    let mut request = [0u8; 64];
    let mut off = 0;
    request[off..off + 4].copy_from_slice(&(NONCE_LEN as u32).to_le_bytes());
    off += 4;
    request[off..off + NONCE_LEN].copy_from_slice(&nonce);
    off += NONCE_LEN;
    request[off..off + 4].copy_from_slice(&0u32.to_le_bytes()); // empty aad
    off += 4;
    request[off..off + 4].copy_from_slice(&(TAG_LEN as u32).to_le_bytes());
    off += 4;
    request[off..off + TAG_LEN].copy_from_slice(&[0xAAu8; TAG_LEN]); // bogus tag
    off += TAG_LEN;
    request[off..off + 4].copy_from_slice(b"evil");
    off += 4;

    let mut reply = [0xFFu8; 64]; // poison the buffer to prove nothing leaks
    let (s, len) = handle_request(&keystore, badge, OP_DECRYPT, &request[..off], &mut reply);
    assert_eq!(s, status::FAILED);
    assert_eq!(len, 0, "a tag mismatch must never carry a partial plaintext");
}

#[test]
fn unknown_badge_is_access_denied_before_any_parsing() {
    let (keystore, _badge, _key) = granted_encrypt_decrypt_keystore();
    let mut reply = [0u8; 16];
    // A malformed payload: parsed at all it would be INVALID, not ACCESS, so
    // the badge must be looked up first.
    let (s, len) =
        handle_request(&keystore, 0xDEAD_BEEF, OP_ENCRYPT, b"\xFF\xFF\xFF\xFF", &mut reply);
    assert_eq!(s, status::ACCESS);
    assert_eq!(len, 0);
}

#[test]
fn unknown_op_is_invalid() {
    let (keystore, badge, _key) = granted_encrypt_decrypt_keystore();
    let mut reply = [0u8; 16];
    let (s, len) = handle_request(&keystore, badge, 99, b"", &mut reply);
    assert_eq!(s, status::INVALID);
    assert_eq!(len, 0);
}

#[test]
fn truncated_encrypt_request_is_invalid_not_a_panic() {
    let (keystore, badge, _key) = granted_encrypt_decrypt_keystore();
    let mut reply = [0u8; 16];
    // Claims a huge nonce_len that the buffer does not hold.
    let bogus = [0xFFu8, 0xFF, 0xFF, 0x7F];
    let (s, len) = handle_request(&keystore, badge, OP_ENCRYPT, &bogus, &mut reply);
    assert_eq!(s, status::INVALID);
    assert_eq!(len, 0);
}

#[test]
fn a_reply_buffer_too_small_for_the_signature_is_invalid() {
    let (keystore, badge, _key) = granted_sign_keystore();

    let mut too_small = [0u8; 4];
    let (s, len) = handle_request(&keystore, badge, OP_SIGN, b"hi", &mut too_small);
    assert_eq!(s, status::INVALID);
    assert_eq!(len, 0);
}

#[test]
fn a_prefix_is_four_little_endian_bytes() {
    let mut buf = [0xEEu8; 10];
    assert_eq!(write_prefixed(&mut buf, 2, b"abc"), Some(9));
    assert_eq!(buf, [0xEE, 0xEE, 3, 0, 0, 0, b'a', b'b', b'c', 0xEE]);
    assert_eq!(read_prefixed(&buf[2..]), Some((&b"abc"[..], &[0xEEu8][..])));
    let mut long = vec![0u8; 0x1234 + 4];
    assert_eq!(write_prefixed(&mut long, 0, &vec![5u8; 0x1234]), Some(0x1234 + 4));
    assert_eq!(long[..5], [0x34, 0x12, 0, 0, 5]);
    assert_eq!(read_prefixed(&long).unwrap().0.len(), 0x1234);
}

#[test]
fn a_field_that_does_not_fit_is_not_written() {
    let mut buf = [0xEEu8; 6];
    assert_eq!(write_prefixed(&mut buf, 0, b"abc"), None);
    assert_eq!(write_prefixed(&mut buf, 3, b""), None);
    assert_eq!(write_prefixed(&mut buf, usize::MAX, b""), None);
    assert_eq!(buf, [0xEE; 6]);
    assert_eq!(write_prefixed(&mut buf, 2, b""), Some(6));
    assert_eq!(buf, [0xEE, 0xEE, 0, 0, 0, 0]);
}

#[test]
fn a_length_past_the_buffer_is_not_trusted() {
    assert_eq!(read_prefixed(b""), None);
    assert_eq!(read_prefixed(&[0, 0, 0]), None);
    assert_eq!(read_prefixed(&[1, 0, 0, 0]), None);
    assert_eq!(read_prefixed(&[0xFF, 0xFF, 0xFF, 0xFF, 0]), None);
    assert_eq!(read_prefixed(&[0, 0, 0, 0]), Some((&[][..], &[][..])));
}

#[test]
fn a_request_that_does_not_fit_leaves_its_leading_parts() {
    let nonce = [1u8; NONCE_LEN];
    let mut buf = [0xEEu8; 33];
    // The nonce and an empty aad take 32 bytes; two bytes of text are too many.
    assert_eq!(encode_encrypt_request(&nonce, b"", b"ab", &mut buf), None);
    assert_eq!(buf[0], 24);
    assert_eq!(buf[4..28], nonce);
    assert_eq!(buf[28..], [0, 0, 0, 0, 0xEE]);
    assert_eq!(encode_encrypt_request(&nonce, b"", b"a", &mut buf), Some(33));
    assert_eq!(buf[32], b'a');
    let mut small = [0xEEu8; 40];
    assert_eq!(encode_decrypt_request(&nonce, b"a", &[2; TAG_LEN], b"", &mut small), None);
    assert_eq!(small[28..], [1, 0, 0, 0, b'a', 0xEE, 0xEE, 0xEE, 0xEE, 0xEE, 0xEE, 0xEE]);
}

#[test]
fn every_error_has_its_status() {
    for e in [
        KeystoreError::UnknownBadge,
        KeystoreError::BadgeRevoked,
        KeystoreError::WrongKey,
        KeystoreError::OpNotGranted,
    ] {
        assert_eq!(status_for(e), status::ACCESS);
    }
    for e in [KeystoreError::KeyDestroyed, KeystoreError::CryptoFailure] {
        assert_eq!(status_for(e), status::FAILED);
    }
    for e in [
        KeystoreError::NoSuchKey,
        KeystoreError::WrongPurpose,
        KeystoreError::NotEnoughCapacity,
        KeystoreError::TooManyCaveats,
        KeystoreError::UnknownSeal,
        KeystoreError::SealRevoked,
        KeystoreError::TokenInvalid,
        KeystoreError::CaveatNotSatisfied,
        KeystoreError::Kernel(SyscallError { code: 1 }),
    ] {
        assert_eq!(status_for(e), status::INVALID);
    }
    assert_eq!((status::OK, status::ACCESS, status::INVALID, status::FAILED), (0, 1, 2, 3));
    assert_eq!((OP_SIGN, OP_ENCRYPT, OP_DECRYPT), (1, 2, 3));
}

#[test]
fn client_codecs_drive_the_server() {
    let (keystore, badge, _key) = granted_encrypt_decrypt_keystore();
    let nonce = [4u8; NONCE_LEN];
    let mut request = [0u8; 96];
    let n = encode_encrypt_request(&nonce, b"aad", b"plaintext", &mut request).unwrap();
    let mut reply = [0u8; 29];
    let (s, len) = handle_request(&keystore, badge, OP_ENCRYPT, &request[..n], &mut reply);
    assert_eq!((s, len), (status::OK, 29));
    let (tag, ciphertext) = decode_encrypt_reply(&reply[..len]).unwrap();
    let n = encode_decrypt_request(&nonce, b"aad", &tag, ciphertext, &mut request).unwrap();
    let mut text = [0xEEu8; 10];
    let (s, len) = handle_request(&keystore, badge, OP_DECRYPT, &request[..n], &mut text);
    assert_eq!((s, len), (status::OK, 9));
    assert_eq!(decode_decrypt_reply(&text[..len]), b"plaintext");
    assert_eq!(text[9], 0xEE);
    // One byte less room, and there is no reply.
    let (s, len) = handle_request(&keystore, badge, OP_DECRYPT, &request[..n], &mut text[..8]);
    assert_eq!((s, len), (status::INVALID, 0));
}

#[test]
fn an_encrypt_reply_without_room_is_invalid_and_untouched() {
    let (keystore, badge, _key) = granted_encrypt_decrypt_keystore();
    let mut request = [0u8; 96];
    let n = encode_encrypt_request(&[4; NONCE_LEN], b"", b"text", &mut request).unwrap();
    for room in [0, 19, 23] {
        let mut reply = vec![0xEEu8; room];
        let (s, len) = handle_request(&keystore, badge, OP_ENCRYPT, &request[..n], &mut reply);
        assert_eq!((s, len), (status::INVALID, 0));
        assert_eq!(reply, vec![0xEE; room]);
    }
}

#[test]
fn a_nonce_or_tag_of_the_wrong_length_is_invalid() {
    let (keystore, badge, _key) = granted_encrypt_decrypt_keystore();
    let mut reply = [0u8; 64];
    let mut request = [0u8; 96];
    let off = write_prefixed(&mut request, 0, &[1u8; NONCE_LEN - 1]).unwrap();
    let off = write_prefixed(&mut request, off, b"").unwrap();
    let (s, len) = handle_request(&keystore, badge, OP_ENCRYPT, &request[..off], &mut reply);
    assert_eq!((s, len), (status::INVALID, 0));
    let off = write_prefixed(&mut request, 0, &[1u8; NONCE_LEN]).unwrap();
    let off = write_prefixed(&mut request, off, b"").unwrap();
    let off = write_prefixed(&mut request, off, &[1u8; TAG_LEN + 1]).unwrap();
    let (s, len) = handle_request(&keystore, badge, OP_DECRYPT, &request[..off], &mut reply);
    assert_eq!((s, len), (status::INVALID, 0));
    assert_eq!(reply, [0u8; 64]);
}

#[test]
fn revoked_badges_and_destroyed_keys_have_their_status() {
    let (mut keystore, badge, key) = granted_encrypt_decrypt_keystore();
    let mut request = [0u8; 96];
    let n = encode_encrypt_request(&[4; NONCE_LEN], b"", b"text", &mut request).unwrap();
    let mut reply = [0xEEu8; 25];
    keystore.destroy(key).unwrap();
    let (s, len) = handle_request(&keystore, badge, OP_ENCRYPT, &request[..n], &mut reply);
    assert_eq!((s, len), (status::FAILED, 0));
    assert_eq!(reply[..20], [0xEE; 20]);
    assert_eq!(reply[20..], *b"text\xEE");
    keystore.revoke_access(badge, Ok(())).unwrap();
    let (s, len) = handle_request(&keystore, badge, OP_ENCRYPT, &request[..n], &mut reply);
    assert_eq!((s, len), (status::ACCESS, 0));
    let (s, len) = handle_request(&keystore, badge, OP_SIGN, b"m", &mut reply);
    assert_eq!((s, len), (status::ACCESS, 0));
}

#[test]
fn a_badge_without_the_operation_is_denied() {
    let (keystore, badge, _key) =
        granted_keystore(KeyOps::mac(), |ks| ks.generate_mac_key([1; MAC_KEY_LEN]).unwrap());
    let mut reply = [0u8; 128];
    let (s, len) = handle_request(&keystore, badge, OP_SIGN, b"m", &mut reply);
    assert_eq!((s, len), (status::ACCESS, 0));
}

#[test]
fn a_failed_decrypt_leaves_only_what_was_sent() {
    let (keystore, badge, _key) = granted_encrypt_decrypt_keystore();
    let mut request = [0u8; 96];
    let n = encode_decrypt_request(&[7; NONCE_LEN], b"", &[0xAA; TAG_LEN], b"evil", &mut request)
        .unwrap();
    let mut reply = [0xFFu8; 6];
    let (s, len) = handle_request(&keystore, badge, OP_DECRYPT, &request[..n], &mut reply);
    assert_eq!((s, len), (status::FAILED, 0));
    assert_eq!(reply, *b"evil\xFF\xFF");
}

#[test]
fn replies_follow_the_outcome() {
    let mut buf = [0xEEu8; 66];
    assert_eq!(sign_reply(Ok([5; SIGNATURE_LEN]), &mut buf), (status::OK, 64));
    assert_eq!(buf[..64], [5u8; 64]);
    assert_eq!(buf[64..], [0xEE, 0xEE]);
    assert_eq!(sign_reply(Ok([5; SIGNATURE_LEN]), &mut buf[..63]), (status::INVALID, 0));
    assert_eq!(sign_reply(Err(KeystoreError::KeyDestroyed), &mut buf), (status::FAILED, 0));
    let mut buf = [0xEEu8; 23];
    assert_eq!(finish_encrypt(Err(KeystoreError::WrongKey), 3, &mut buf), (status::ACCESS, 0));
    assert_eq!(buf, [0xEE; 23]);
    assert_eq!(finish_encrypt(Ok([6; TAG_LEN]), 3, &mut buf), (status::OK, 23));
    assert_eq!(buf[..5], [16, 0, 0, 0, 6]);
    assert_eq!(buf[20..], [0xEE; 3]);
    assert_eq!(finish_decrypt(Ok(()), 3), (status::OK, 3));
    assert_eq!(finish_decrypt(Err(KeystoreError::CryptoFailure), 3), (status::FAILED, 0));
}

#[test]
fn requests_of_ordinary_size_are_covered() {
    let (keystore, badge, _key) = granted_encrypt_decrypt_keystore();
    let mut buf = [0u8; 96];
    let n = encode_encrypt_request(&[1; NONCE_LEN], b"aad", b"text", &mut buf).unwrap();
    for op in [OP_SIGN, OP_ENCRYPT, OP_DECRYPT, 99] {
        for b in [badge, 999] {
            for room in [0, 4, 96] {
                assert!(request_is_covered(&keystore, b, op, b"", room));
                assert!(request_is_covered(&keystore, b, op, &[0xFF; 8], room));
                assert!(request_is_covered(&keystore, b, op, &buf[..n], room));
            }
        }
    }
    let n = encode_decrypt_request(&[1; NONCE_LEN], b"", &[2; TAG_LEN], b"text", &mut buf).unwrap();
    assert!(request_is_covered(&keystore, badge, OP_DECRYPT, &buf[..n], 96));
}

#[test]
fn nothing_behind_the_payload_is_touched() {
    let (keystore, badge, _key) = granted_sign_keystore();
    let mut reply = [0xEEu8; 70];
    let done = handle_request(&keystore, badge, OP_SIGN, b"m", &mut reply);
    assert_eq!(done, (status::OK, 64));
    assert_eq!(reply[64..], [0xEE; 6]);
    let done = handle_request(&keystore, badge, OP_SIGN, b"m", &mut reply[..64]);
    assert_eq!(done, (status::OK, 64));

    let (keystore, badge, _key) = granted_encrypt_decrypt_keystore();
    let mut request = [0u8; 64];
    let n = encode_encrypt_request(&[1; NONCE_LEN], b"", b"text", &mut request).unwrap();
    let mut reply = [0xEEu8; 30];
    let done = handle_request(&keystore, badge, OP_ENCRYPT, &request[..n], &mut reply);
    assert_eq!(done, (status::OK, 24));
    assert_eq!(reply[24..], [0xEE; 6]);
}
