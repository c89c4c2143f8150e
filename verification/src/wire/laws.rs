//! What the wire format keeps: encoders and parsers undo each other, and what
//! is encrypted over the wire decrypts over the wire.

use vstd::prelude::*;

use crate::aead::{keystream_covers, NONCE_LEN, TAG_LEN};
use crate::bytes::{
    byte_span, four_bytes_add_up, le_bytes, le_bytes_add_up, le_bytes_len, le_bytes_of_le_value, le_value_of_le_bytes, overwrite,
};
use crate::keys::{KeyOps, KeystoreError, OPS_DECRYPT};
use crate::model::KeystoreView;
use crate::wire::{
    covered, decrypt_request, encrypt_reply, encrypt_request, parse_decrypt_request, parse_encrypt_reply,
    parse_encrypt_request, parse_prefixed, prefixed, refusal, reply_to, status, status_of, Reply, OP_DECRYPT,
    OP_ENCRYPT, OP_SIGN,
};

verus! {

/// A field that was written behind its length is read back, and so is what
/// follows it. Its length must fit in the prefix.
pub proof fn a_prefixed_field_is_read_back(field: Seq<u8>, rest: Seq<u8>)
    requires
        field.len() <= u32::MAX,
    ensures
        parse_prefixed(prefixed(field) + rest) == Some((field, rest)),
{
    let bytes = prefixed(field) + rest;
    le_bytes_len(field.len(), 4);
    le_value_of_le_bytes(field.len(), 4);
    reveal_with_fuel(byte_span, 5);
    vstd::arithmetic::div_mod::lemma_small_mod(field.len(), byte_span(4));
    assert(bytes.take(4) =~= le_bytes(field.len(), 4));
    let n = field.len() as int;
    assert(bytes.subrange(4, 4 + n) =~= field);
    assert(bytes.skip(4 + n) =~= rest);
}

/// What is read as a field is what writing that field gives: no two fields are
/// written alike, and the parser accepts nothing else.
pub proof fn what_is_read_was_a_prefixed_field(bytes: Seq<u8>)
    ensures
        parse_prefixed(bytes) matches Some((field, rest)) ==> field.len() <= u32::MAX && bytes
            == prefixed(field) + rest,
{
    if let Some((field, rest)) = parse_prefixed(bytes) {
        let head = bytes.take(4);
        le_bytes_of_le_value(head);
        le_value_of_le_bytes(field.len(), 4);
        reveal_with_fuel(byte_span, 5);
        assert(bytes =~= prefixed(field) + rest);
    }
}

/// The server's parser reads back an ENCRYPT request.
pub proof fn an_encrypt_request_is_read_back(nonce: Seq<u8>, aad: Seq<u8>, plaintext: Seq<u8>)
    requires
        nonce.len() == NONCE_LEN,
        aad.len() <= u32::MAX,
    ensures
        parse_encrypt_request(encrypt_request(nonce, aad, plaintext)) == Some(
            (nonce, aad, plaintext),
        ),
{
    let rest = prefixed(aad) + plaintext;
    assert(encrypt_request(nonce, aad, plaintext) =~= prefixed(nonce) + rest);
    a_prefixed_field_is_read_back(nonce, rest);
    a_prefixed_field_is_read_back(aad, plaintext);
}

/// The server's parser reads back a DECRYPT request.
pub proof fn a_decrypt_request_is_read_back(
    nonce: Seq<u8>,
    aad: Seq<u8>,
    tag: Seq<u8>,
    ciphertext: Seq<u8>,
)
    requires
        nonce.len() == NONCE_LEN,
        aad.len() <= u32::MAX,
        tag.len() == TAG_LEN,
    ensures
        parse_decrypt_request(decrypt_request(nonce, aad, tag, ciphertext)) == Some(
            (nonce, aad, tag, ciphertext),
        ),
{
    let rest = prefixed(tag) + ciphertext;
    assert(decrypt_request(nonce, aad, tag, ciphertext) =~= encrypt_request(nonce, aad, rest));
    an_encrypt_request_is_read_back(nonce, aad, rest);
    a_prefixed_field_is_read_back(tag, ciphertext);
}

/// The client's decoder reads back an ENCRYPT reply.
pub proof fn an_encrypt_reply_is_read_back(tag: Seq<u8>, ciphertext: Seq<u8>)
    requires
        tag.len() == TAG_LEN,
    ensures
        parse_encrypt_reply(encrypt_reply(tag, ciphertext)) == Some((tag, ciphertext)),
{
    a_prefixed_field_is_read_back(tag, ciphertext);
}

/// Whatever parses as an ENCRYPT request is the encoding of its parts.
pub proof fn what_parses_was_an_encrypt_request(request: Seq<u8>)
    ensures
        parse_encrypt_request(request) matches Some((nonce, aad, plaintext)) ==> nonce.len()
            == NONCE_LEN && aad.len() <= u32::MAX && request == encrypt_request(
            nonce,
            aad,
            plaintext,
        ),
{
    if let Some((nonce, rest)) = parse_prefixed(request) {
        what_is_read_was_a_prefixed_field(request);
        if let Some((aad, plaintext)) = parse_prefixed(rest) {
            what_is_read_was_a_prefixed_field(rest);
            assert(request =~= encrypt_request(nonce, aad, plaintext));
        }
    }
}

/// A badge that was never granted is denied before the request is looked at:
/// the answer is the same for every operation and every request, and the reply
/// buffer is untouched.
pub proof fn an_unknown_badge_is_denied_unparsed(
    ks: KeystoreView,
    badge: u64,
    op: u16,
    request: Seq<u8>,
    buf: Seq<u8>,
)
    requires
        !ks.badges().contains(badge),
    ensures
        reply_to(ks, badge, op, request, buf) == refusal(status::ACCESS, buf),
{
    crate::laws::an_unknown_badge_reads_as_revoked(ks, badge);
}

/// An operation that the format does not know is invalid, whoever asks.
pub proof fn an_unknown_operation_is_invalid(
    ks: KeystoreView,
    badge: u64,
    op: u16,
    request: Seq<u8>,
    buf: Seq<u8>,
)
    requires
        ks.grant(badge) is Some,
        op != OP_SIGN && op != OP_ENCRYPT && op != OP_DECRYPT,
    ensures
        reply_to(ks, badge, op, request, buf) == refusal(status::INVALID, buf),
{
}

/// Only success carries a payload.
pub proof fn only_success_carries_a_payload(
    ks: KeystoreView,
    badge: u64,
    op: u16,
    request: Seq<u8>,
    buf: Seq<u8>,
)
    ensures
        reply_to(ks, badge, op, request, buf).status != status::OK ==> reply_to(
            ks,
            badge,
            op,
            request,
            buf,
        ).len == 0,
{
}

/// A DECRYPT request that fails leaks nothing of a plaintext: its reply does
/// not depend on the key, beyond the status, and the buffer holds at most the
/// ciphertext that the request itself carried.
pub proof fn a_failed_decrypt_leaks_nothing(
    ks: KeystoreView,
    badge: u64,
    request: Seq<u8>,
    buf: Seq<u8>,
)
    ensures
        ({
            let reply = reply_to(ks, badge, OP_DECRYPT, request, buf);
            reply.status != status::OK ==> reply.len == 0 && (reply.buf == buf || {
                &&& parse_decrypt_request(request) matches Some((_, _, _, ciphertext))
                &&& reply.buf == overwrite(buf, 0, ciphertext)
            })
        }),
{
}

/// A request of at most 0xffff_fffe blocks of 64 bytes never takes the cipher
/// past its key stream, whatever it holds.
pub proof fn a_request_of_ordinary_size_is_covered(
    ks: KeystoreView,
    badge: u64,
    op: u16,
    request: Seq<u8>,
    room: nat,
)
    requires
        request.len() <= 64 * 0xffff_fffe,
    ensures
        covered(ks, badge, op, request, room),
{
}

/// Whether an ENCRYPT request's reply decrypts over the wire: wherever a badge
/// may decrypt under the key that was used, a DECRYPT request made of the
/// reply's parts is answered with the plaintext. That request may be made of any
/// keystore.
pub open spec fn decrypts_over_the_wire(
    key: Result<Seq<u8>, KeystoreError>,
    request: Seq<u8>,
    reply: Seq<u8>,
) -> bool {
    &&& parse_encrypt_request(request) matches Some((nonce, aad, plaintext))
    &&& parse_encrypt_reply(reply) matches Some((tag, ciphertext))
    &&& forall|later: KeystoreView, reader: u64, buf: Seq<u8>|
        later.grant(reader) is Some && later.aead_key(
            reader,
            later.grant(reader)->0.key,
            KeyOps(OPS_DECRYPT),
        ) == key && plaintext.len() <= buf.len() ==> #[trigger] reply_to(
            later,
            reader,
            OP_DECRYPT,
            decrypt_request(nonce, aad, tag, ciphertext),
            buf,
        ) == (Reply {
            status: status::OK,
            len: plaintext.len() as int,
            buf: overwrite(buf, 0, plaintext),
        })
    &&& forall|later: KeystoreView, reader: u64, room: nat| #[trigger]
        covered(
            later,
            reader,
            OP_DECRYPT,
            decrypt_request(nonce, aad, tag, ciphertext),
            room,
        )
}

/// What decrypts at the keystore decrypts over the wire.
pub proof fn encryption_carries_over_the_wire(
    key: Result<Seq<u8>, KeystoreError>,
    request: Seq<u8>,
    tag: Seq<u8>,
    ciphertext: Seq<u8>,
)
    requires
        ({
            &&& parse_encrypt_request(request) matches Some((nonce, aad, plaintext))
            &&& tag.len() == TAG_LEN
            &&& ciphertext.len() == plaintext.len()
            &&& keystream_covers(plaintext.len())
            &&& forall|later: KeystoreView, reader: u64, name: crate::keys::KeyId|
                later.aead_key(reader, name, KeyOps(OPS_DECRYPT)) == key
                    ==> #[trigger] later.decrypt_outcome(
                    reader,
                    name,
                    nonce,
                    aad,
                    ciphertext,
                    tag,
                ) == Ok::<Seq<u8>, KeystoreError>(plaintext)
        }),
    ensures
        decrypts_over_the_wire(key, request, encrypt_reply(tag, ciphertext)),
{
    let (nonce, aad, plaintext) = parse_encrypt_request(request)->0;
    what_parses_was_an_encrypt_request(request);
    an_encrypt_reply_is_read_back(tag, ciphertext);
    a_decrypt_request_is_read_back(nonce, aad, tag, ciphertext);
}

/// A field goes on the wire behind its length, which is four bytes, least
/// significant first, and loses what does not fit in them.
pub proof fn a_prefix_is_the_length(field: Seq<u8>)
    ensures
        prefixed(field).len() == 4 + field.len(),
        prefixed(field).skip(4) == field,
        ({
            let p = prefixed(field);
            p[0] as int + 256 * p[1] as int + 65536 * p[2] as int + 16777216 * p[3] as int
                == field.len() % 0x1_0000_0000
        }),
{
    le_bytes_len(field.len(), 4);
    le_bytes_add_up(field.len());
    assert(prefixed(field).skip(4) =~= field);
    assert(forall|i: int| 0 <= i < 4 ==> prefixed(field)[i] == le_bytes(field.len(), 4)[i]);
}

/// A field is read where its four length bytes are there and say no more than
/// there is, and then it is just as long as they say; the rest is what follows.
pub proof fn a_field_is_as_long_as_its_prefix_says(bytes: Seq<u8>)
    ensures
        bytes.len() < 4 ==> parse_prefixed(bytes) is None,
        bytes.len() >= 4 ==> ({
            let n = bytes[0] as int + 256 * bytes[1] as int + 65536 * bytes[2] as int + 16777216
                * bytes[3] as int;
            parse_prefixed(bytes) == if 4 + n > bytes.len() {
                None
            } else {
                Some((bytes.subrange(4, 4 + n), bytes.skip(4 + n)))
            }
        }),
{
    if bytes.len() >= 4 {
        four_bytes_add_up(bytes.take(4));
    }
}

/// Where the parts of an ENCRYPT request stand.
pub proof fn an_encrypt_request_is_laid_out_so(nonce: Seq<u8>, aad: Seq<u8>, plaintext: Seq<u8>)
    ensures
        ({
            let r = encrypt_request(nonce, aad, plaintext);
            let (n, a) = (nonce.len() as int, aad.len() as int);
            &&& r.len() == 8 + n + a + plaintext.len()
            &&& r[0] as int + 256 * r[1] as int + 65536 * r[2] as int + 16777216 * r[3] as int == n
                % 0x1_0000_0000
            &&& r.subrange(4, 4 + n) == nonce
            &&& r[4 + n] as int + 256 * r[5 + n] as int + 65536 * r[6 + n] as int + 16777216
                * r[7 + n] as int == a % 0x1_0000_0000
            &&& r.subrange(8 + n, 8 + n + a) == aad
            &&& r.skip(8 + n + a) == plaintext
        }),
{
    let r = encrypt_request(nonce, aad, plaintext);
    let (n, a) = (nonce.len() as int, aad.len() as int);
    a_prefix_is_the_length(nonce);
    a_prefix_is_the_length(aad);
    assert(forall|i: int| 0 <= i < n ==> prefixed(nonce).skip(4)[i] == prefixed(nonce)[i + 4]);
    assert(forall|i: int| 0 <= i < a ==> prefixed(aad).skip(4)[i] == prefixed(aad)[i + 4]);
    assert(r.subrange(4, 4 + n) =~= prefixed(nonce).skip(4));
    assert(r.subrange(8 + n, 8 + n + a) =~= prefixed(aad).skip(4));
    assert(r.skip(8 + n + a) =~= plaintext);
}

/// A DECRYPT request is an ENCRYPT request that carries the tag, behind its own
/// length, and the ciphertext. An ENCRYPT reply carries just those.
pub proof fn a_tag_goes_before_its_ciphertext(
    nonce: Seq<u8>,
    aad: Seq<u8>,
    tag: Seq<u8>,
    ciphertext: Seq<u8>,
)
    ensures
        decrypt_request(nonce, aad, tag, ciphertext) == encrypt_request(
            nonce,
            aad,
            encrypt_reply(tag, ciphertext),
        ),
        ({
            let r = encrypt_reply(tag, ciphertext);
            let t = tag.len() as int;
            &&& r.len() == 4 + t + ciphertext.len()
            &&& r[0] as int + 256 * r[1] as int + 65536 * r[2] as int + 16777216 * r[3] as int == t
                % 0x1_0000_0000
            &&& r.subrange(4, 4 + t) == tag
            &&& r.skip(4 + t) == ciphertext
        }),
{
    let r = encrypt_reply(tag, ciphertext);
    let t = tag.len() as int;
    a_prefix_is_the_length(tag);
    assert(forall|i: int| 0 <= i < t ==> prefixed(tag).skip(4)[i] == prefixed(tag)[i + 4]);
    assert(r.subrange(4, 4 + t) =~= prefixed(tag).skip(4));
    assert(r.skip(4 + t) =~= ciphertext);
    assert(decrypt_request(nonce, aad, tag, ciphertext) =~= encrypt_request(nonce, aad, r));
}

/// Whatever parses as a DECRYPT request or as an ENCRYPT reply is the encoding of
/// its parts, with a nonce of 24 bytes and a tag of 16.
pub proof fn what_parses_was_encoded(bytes: Seq<u8>)
    ensures
        parse_decrypt_request(bytes) matches Some((nonce, aad, tag, ciphertext)) ==> nonce.len()
            == 24 && aad.len() <= u32::MAX && tag.len() == 16 && bytes == decrypt_request(
            nonce,
            aad,
            tag,
            ciphertext,
        ),
        parse_encrypt_request(bytes) matches Some((nonce, aad, plaintext)) ==> nonce.len() == 24
            && aad.len() <= u32::MAX && bytes == encrypt_request(nonce, aad, plaintext),
        parse_encrypt_reply(bytes) matches Some((tag, ciphertext)) ==> tag.len() == 16 && bytes
            == encrypt_reply(tag, ciphertext),
{
    what_parses_was_an_encrypt_request(bytes);
    if let Some((nonce, aad, rest)) = parse_encrypt_request(bytes) {
        what_is_read_was_a_prefixed_field(rest);
        if let Some((tag, ciphertext)) = parse_prefixed(rest) {
            assert(encrypt_request(nonce, aad, rest) =~= decrypt_request(
                nonce,
                aad,
                tag,
                ciphertext,
            ));
        }
    }
    what_is_read_was_a_prefixed_field(bytes);
}

/// What a client is told of an error: that it may not (1), that the operation was
/// tried and failed (3), or, of anything else, that the request makes no sense (2).
pub proof fn statuses_are_these(err: KeystoreError)
    ensures
        status_of(err) == 1 <==> err == KeystoreError::UnknownBadge || err
            == KeystoreError::BadgeRevoked || err == KeystoreError::WrongKey || err
            == KeystoreError::OpNotGranted,
        status_of(err) == 3 <==> err == KeystoreError::KeyDestroyed || err
            == KeystoreError::CryptoFailure,
        status_of(err) == 1 || status_of(err) == 2 || status_of(err) == 3,
        status::OK == 0 && status::ACCESS == 1 && status::INVALID == 2 && status::FAILED == 3,
        OP_SIGN == 1 && OP_ENCRYPT == 2 && OP_DECRYPT == 3,
{
}

/// The reply to a SIGN request is the signature where there is one and it fits, and
/// otherwise an untouched buffer.
pub proof fn a_sign_request_is_answered_so(
    ks: KeystoreView,
    badge: u64,
    request: Seq<u8>,
    buf: Seq<u8>,
)
    requires
        ks.grant(badge) is Some,
    ensures
        ({
            let reply = reply_to(ks, badge, 1, request, buf);
            match ks.sign_outcome(badge, ks.grant(badge)->0.key, request) {
                Err(e) => reply.status == status_of(e) && reply.len == 0 && reply.buf == buf,
                Ok(signature) => if signature.len() > buf.len() {
                    reply.status == 2 && reply.len == 0 && reply.buf == buf
                } else {
                    &&& reply.status == 0
                    &&& reply.len == signature.len()
                    &&& reply.buf.len() == buf.len()
                    &&& reply.buf.take(reply.len) == signature
                    &&& reply.buf.skip(reply.len) == buf.skip(reply.len)
                },
            }
        }),
{
    let reply = reply_to(ks, badge, 1, request, buf);
    if let Ok(signature) = ks.sign_outcome(badge, ks.grant(badge)->0.key, request) {
        if signature.len() <= buf.len() {
            assert(reply.buf.take(reply.len) =~= signature);
            assert(reply.buf.skip(reply.len) =~= buf.skip(reply.len));
        }
    }
}

/// The reply to an ENCRYPT request is tag and ciphertext of the very plaintext under
/// the request's nonce and associated data. A request that does not parse, or has
/// no room for its reply, leaves the buffer alone; a failure leaves no more than
/// the plaintext that the request carried.
pub proof fn an_encrypt_request_is_answered_so(
    ks: KeystoreView,
    badge: u64,
    request: Seq<u8>,
    buf: Seq<u8>,
)
    requires
        ks.grant(badge) is Some,
    ensures
        ({
            let reply = reply_to(ks, badge, 2, request, buf);
            match parse_encrypt_request(request) {
                None => reply.status == 2 && reply.len == 0 && reply.buf == buf,
                Some((nonce, aad, plaintext)) => if 20 + plaintext.len() > buf.len() {
                    reply.status == 2 && reply.len == 0 && reply.buf == buf
                } else {
                    match ks.encrypt_outcome(
                        badge,
                        ks.grant(badge)->0.key,
                        nonce,
                        aad,
                        plaintext,
                    ) {
                        Err(e) => {
                            &&& reply.status == status_of(e)
                            &&& reply.len == 0
                            &&& reply.buf.take(20) == buf.take(20)
                            &&& reply.buf.subrange(20, 20 + plaintext.len() as int) == plaintext
                            &&& reply.buf.skip(20 + plaintext.len() as int) == buf.skip(
                                20 + plaintext.len() as int,
                            )
                        },
                        Ok((ciphertext, tag)) => {
                            &&& reply.status == 0
                            &&& reply.len == 20 + plaintext.len()
                            &&& tag.len() == 16 && ciphertext.len() == plaintext.len() ==> {
                                &&& reply.buf.take(reply.len) == encrypt_reply(tag, ciphertext)
                                &&& reply.buf.skip(reply.len) == buf.skip(reply.len)
                            }
                        },
                    }
                },
            }
        }),
{
    let reply = reply_to(ks, badge, 2, request, buf);
    if let Some((nonce, aad, plaintext)) = parse_encrypt_request(request) {
        if 20 + plaintext.len() <= buf.len() {
            let n = 20 + plaintext.len() as int;
            match ks.encrypt_outcome(badge, ks.grant(badge)->0.key, nonce, aad, plaintext) {
                Err(_) => {
                    assert(reply.buf.take(20) =~= buf.take(20));
                    assert(reply.buf.subrange(20, n) =~= plaintext);
                    assert(reply.buf.skip(n) =~= buf.skip(n));
                },
                Ok((ciphertext, tag)) => {
                    if tag.len() == 16 && ciphertext.len() == plaintext.len() {
                        le_bytes_len(16, 4);
                        assert(reply.buf.take(n) =~= encrypt_reply(tag, ciphertext));
                        assert(reply.buf.skip(n) =~= buf.skip(n));
                    }
                },
            }
        }
    }
}

/// The reply to a DECRYPT request is the plaintext of the very ciphertext and tag
/// under the request's nonce and associated data. A request that does not parse, or
/// has no room for its reply, leaves the buffer alone; a failure leaves no more than
/// the ciphertext that the request carried.
pub proof fn a_decrypt_request_is_answered_so(
    ks: KeystoreView,
    badge: u64,
    request: Seq<u8>,
    buf: Seq<u8>,
)
    requires
        ks.grant(badge) is Some,
    ensures
        ({
            let reply = reply_to(ks, badge, 3, request, buf);
            match parse_decrypt_request(request) {
                None => reply.status == 2 && reply.len == 0 && reply.buf == buf,
                Some((nonce, aad, tag, ciphertext)) => if ciphertext.len() > buf.len() {
                    reply.status == 2 && reply.len == 0 && reply.buf == buf
                } else {
                    let n = ciphertext.len() as int;
                    match ks.decrypt_outcome(
                        badge,
                        ks.grant(badge)->0.key,
                        nonce,
                        aad,
                        ciphertext,
                        tag,
                    ) {
                        Err(e) => {
                            &&& reply.status == status_of(e)
                            &&& reply.len == 0
                            &&& reply.buf.take(n) == ciphertext
                            &&& reply.buf.skip(n) == buf.skip(n)
                        },
                        Ok(plaintext) => {
                            &&& reply.status == 0
                            &&& reply.len == n
                            &&& plaintext.len() == n ==> {
                                &&& reply.buf.take(n) == plaintext
                                &&& reply.buf.skip(n) == buf.skip(n)
                            }
                        },
                    }
                },
            }
        }),
{
    let reply = reply_to(ks, badge, 3, request, buf);
    if let Some((nonce, aad, tag, ciphertext)) = parse_decrypt_request(request) {
        let n = ciphertext.len() as int;
        if n <= buf.len() {
            match ks.decrypt_outcome(badge, ks.grant(badge)->0.key, nonce, aad, ciphertext, tag) {
                Err(_) => {
                    assert(reply.buf.take(n) =~= ciphertext);
                    assert(reply.buf.skip(n) =~= buf.skip(n));
                },
                Ok(plaintext) => {
                    if plaintext.len() == n {
                        assert(reply.buf.take(n) =~= plaintext);
                        assert(reply.buf.skip(n) =~= buf.skip(n));
                    }
                },
            }
        }
    }
}

/// A refusal has an empty payload and leaves the buffer alone.
pub proof fn a_refusal_says_only_its_status(code: u16, buf: Seq<u8>)
    ensures
        refusal(code, buf).status == code,
        refusal(code, buf).len == 0,
        refusal(code, buf).buf == buf,
{
}

/// A request may be handed in unless it would have the cipher work on one of the 63
/// lengths that the key stream does not reach the end of.
pub proof fn a_request_is_covered_unless_the_stream_ends(
    ks: KeystoreView,
    badge: u64,
    op: u16,
    request: Seq<u8>,
    room: nat,
)
    ensures
        covered(ks, badge, op, request, room) <==> !(ks.grant(badge) matches Some(g) && {
            ||| op == 2 && (parse_encrypt_request(request) matches Some((_, _, text)) && 20
                + text.len() <= room && 274_877_906_816 < text.len() < 274_877_906_880
                && ks.aead_key(badge, g.key, KeyOps(1)) is Ok)
            ||| op == 3 && (parse_decrypt_request(request) matches Some((_, _, _, text))
                && text.len() <= room && 274_877_906_816 < text.len() < 274_877_906_880
                && ks.aead_key(badge, g.key, KeyOps(2)) is Ok)
        }),
{
    if let Some((_, _, text)) = parse_encrypt_request(request) {
        crate::aead::the_cipher_takes_these_lengths(text.len());
    }
    if let Some((_, _, _, text)) = parse_decrypt_request(request) {
        crate::aead::the_cipher_takes_these_lengths(text.len());
    }
}

} // verus!
