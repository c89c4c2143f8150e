//! The wire format in which clients ask for SIGN, ENCRYPT and DECRYPT: parsing
//! of requests and building of replies, as functions of bytes. Whoever carries
//! the bytes is elsewhere.
//!
//! A request parser is a trust boundary. A length field is never trusted past
//! what the buffer holds, and the badge is looked up before the request is
//! parsed, so that a badge that was never granted gets nothing parsed for it.

use vstd::prelude::*;
use vstd::slice::slice_subrange;

use crate::aead::{keystream_covers, keystream_reaches, NONCE_LEN, TAG_LEN};
use crate::bytes::{
    byte_span, copy_into, four_bytes_add_up, le_bytes, le_bytes_len, le_bytes_of_le_value, le_value,
    le_value_of_le_bytes, overwrite, u32_from_le, u32_to_le,
};
use crate::keys::{KeyId, KeyOps, KeystoreError, OPS_DECRYPT, OPS_ENCRYPT};
use crate::keystore::Keystore;
use crate::model::KeystoreView;
use crate::signing::SIGNATURE_LEN;
use crate::wire::laws::{decrypts_over_the_wire, encryption_carries_over_the_wire};

pub mod laws;
pub mod status;

verus! {

pub const OP_SIGN: u16 = 1;

pub const OP_ENCRYPT: u16 = 2;

pub const OP_DECRYPT: u16 = 3;

/// The length of a length prefix.
pub const PREFIX_LEN: usize = 4;

/// What precedes the ciphertext in an ENCRYPT reply: the prefixed tag.
pub const REPLY_HEADER_LEN: usize = 20;

/// A field behind its length, in four little-endian bytes. A length that does
/// not fit in four bytes loses its high digits.
pub open spec fn prefixed(field: Seq<u8>) -> Seq<u8> {
    le_bytes(field.len(), 4) + field
}

/// The field at the start of `bytes` and what follows it, unless the length
/// says more than there is.
pub open spec fn parse_prefixed(bytes: Seq<u8>) -> Option<(Seq<u8>, Seq<u8>)> {
    if bytes.len() < PREFIX_LEN {
        None
    } else {
        let len = le_value(bytes.take(4)) as int;
        if PREFIX_LEN + len > bytes.len() {
            None
        } else {
            Some((bytes.subrange(4, 4 + len), bytes.skip(4 + len)))
        }
    }
}

/// The bytes of an ENCRYPT request.
pub open spec fn encrypt_request(nonce: Seq<u8>, aad: Seq<u8>, plaintext: Seq<u8>) -> Seq<u8> {
    prefixed(nonce) + prefixed(aad) + plaintext
}

/// The bytes of a DECRYPT request.
pub open spec fn decrypt_request(
    nonce: Seq<u8>,
    aad: Seq<u8>,
    tag: Seq<u8>,
    ciphertext: Seq<u8>,
) -> Seq<u8> {
    prefixed(nonce) + prefixed(aad) + prefixed(tag) + ciphertext
}

/// The bytes of an ENCRYPT reply.
pub open spec fn encrypt_reply(tag: Seq<u8>, ciphertext: Seq<u8>) -> Seq<u8> {
    prefixed(tag) + ciphertext
}

/// Nonce, associated data and plaintext of an ENCRYPT request.
pub open spec fn parse_encrypt_request(request: Seq<u8>) -> Option<(Seq<u8>, Seq<u8>, Seq<u8>)> {
    match parse_prefixed(request) {
        None => None,
        Some((nonce, rest)) => match parse_prefixed(rest) {
            None => None,
            Some((aad, plaintext)) => if nonce.len() == NONCE_LEN {
                Some((nonce, aad, plaintext))
            } else {
                None
            },
        },
    }
}

/// Nonce, associated data, tag and ciphertext of a DECRYPT request.
pub open spec fn parse_decrypt_request(request: Seq<u8>) -> Option<
    (Seq<u8>, Seq<u8>, Seq<u8>, Seq<u8>),
> {
    match parse_encrypt_request(request) {
        None => None,
        Some((nonce, aad, rest)) => match parse_prefixed(rest) {
            None => None,
            Some((tag, ciphertext)) => if tag.len() == TAG_LEN {
                Some((nonce, aad, tag, ciphertext))
            } else {
                None
            },
        },
    }
}

/// Tag and ciphertext of an ENCRYPT reply.
pub open spec fn parse_encrypt_reply(reply: Seq<u8>) -> Option<(Seq<u8>, Seq<u8>)> {
    match parse_prefixed(reply) {
        None => None,
        Some((tag, ciphertext)) => if tag.len() == TAG_LEN {
            Some((tag, ciphertext))
        } else {
            None
        },
    }
}

/// The leading `parts`, one behind the other, as far as they fit into `room`
/// bytes.
pub open spec fn what_fits(room: int, parts: Seq<Seq<u8>>) -> Seq<u8>
    decreases parts.len(),
{
    if parts.len() == 0 || parts[0].len() > room {
        Seq::empty()
    } else {
        parts[0] + what_fits(room - parts[0].len(), parts.drop_first())
    }
}

/// The status that reports an error. Four values say it all: a client learns
/// that it may not, that it asked wrongly, or that it failed.
pub open spec fn status_of(err: KeystoreError) -> u16 {
    match err {
        KeystoreError::UnknownBadge => status::ACCESS,
        KeystoreError::BadgeRevoked => status::ACCESS,
        KeystoreError::WrongKey => status::ACCESS,
        KeystoreError::OpNotGranted => status::ACCESS,
        KeystoreError::KeyDestroyed => status::FAILED,
        KeystoreError::CryptoFailure => status::FAILED,
        _ => status::INVALID,
    }
}

/// What a request ends in: a status, the length of the payload, and the
/// reply buffer.
pub struct Reply {
    pub status: u16,
    pub len: int,
    pub buf: Seq<u8>,
}

/// The reply to a request that is turned away with `buf` untouched.
pub open spec fn refusal(status: u16, buf: Seq<u8>) -> Reply {
    Reply { status, len: 0, buf }
}

/// The reply to a SIGN request, given what signing came to.
pub open spec fn sign_reply_of(signed: Result<Seq<u8>, KeystoreError>, buf: Seq<u8>) -> Reply {
    match signed {
        Ok(signature) => if signature.len() <= buf.len() {
            Reply {
                status: status::OK,
                len: signature.len() as int,
                buf: overwrite(buf, 0, signature),
            }
        } else {
            refusal(status::INVALID, buf)
        },
        Err(e) => refusal(status_of(e), buf),
    }
}

/// The reply to an ENCRYPT request, given what encryption came to. The
/// plaintext is first copied to where the ciphertext will stand, so after a
/// failure that is what stands there.
pub open spec fn encrypt_reply_of(
    sealed: Result<(Seq<u8>, Seq<u8>), KeystoreError>,
    plaintext: Seq<u8>,
    buf: Seq<u8>,
) -> Reply {
    if REPLY_HEADER_LEN + plaintext.len() > buf.len() {
        refusal(status::INVALID, buf)
    } else {
        match sealed {
            Ok((ciphertext, tag)) => Reply {
                status: status::OK,
                len: REPLY_HEADER_LEN + plaintext.len(),
                buf: overwrite(buf, 0, encrypt_reply(tag, ciphertext)),
            },
            Err(e) => refusal(
                status_of(e),
                overwrite(buf, REPLY_HEADER_LEN as int, plaintext),
            ),
        }
    }
}

/// The reply to a DECRYPT request, given what decryption came to. The
/// ciphertext is first copied to where the plaintext will stand, so after a
/// failure that is what stands there: nothing of the plaintext.
pub open spec fn decrypt_reply_of(
    opened: Result<Seq<u8>, KeystoreError>,
    ciphertext: Seq<u8>,
    buf: Seq<u8>,
) -> Reply {
    if ciphertext.len() > buf.len() {
        refusal(status::INVALID, buf)
    } else {
        match opened {
            Ok(plaintext) => Reply {
                status: status::OK,
                len: ciphertext.len() as int,
                buf: overwrite(buf, 0, plaintext),
            },
            Err(e) => refusal(status_of(e), overwrite(buf, 0, ciphertext)),
        }
    }
}

/// The reply to a request.
pub open spec fn reply_to(
    ks: KeystoreView,
    badge: u64,
    op: u16,
    request: Seq<u8>,
    buf: Seq<u8>,
) -> Reply {
    match ks.grant(badge) {
        None => refusal(status::ACCESS, buf),
        Some(g) => if op == OP_SIGN {
            sign_reply_of(ks.sign_outcome(badge, g.key, request), buf)
        } else if op == OP_ENCRYPT {
            match parse_encrypt_request(request) {
                None => refusal(status::INVALID, buf),
                Some((nonce, aad, plaintext)) => encrypt_reply_of(
                    ks.encrypt_outcome(badge, g.key, nonce, aad, plaintext),
                    plaintext,
                    buf,
                ),
            }
        } else if op == OP_DECRYPT {
            match parse_decrypt_request(request) {
                None => refusal(status::INVALID, buf),
                Some((nonce, aad, tag, ciphertext)) => decrypt_reply_of(
                    ks.decrypt_outcome(badge, g.key, nonce, aad, ciphertext, tag),
                    ciphertext,
                    buf,
                ),
            }
        } else {
            refusal(status::INVALID, buf)
        },
    }
}

/// Whether the key stream reaches to the end of what an ENCRYPT request would
/// have the cipher work on.
pub open spec fn encrypt_covered(
    ks: KeystoreView,
    badge: u64,
    key: KeyId,
    request: Seq<u8>,
    room: nat,
) -> bool {
    parse_encrypt_request(request) matches Some((_, _, plaintext)) ==> {
        REPLY_HEADER_LEN + plaintext.len() <= room && ks.aead_key(
            badge,
            key,
            KeyOps(OPS_ENCRYPT),
        ) is Ok ==> keystream_covers(plaintext.len())
    }
}

/// Whether the key stream reaches to the end of what a DECRYPT request would
/// have the cipher work on.
pub open spec fn decrypt_covered(
    ks: KeystoreView,
    badge: u64,
    key: KeyId,
    request: Seq<u8>,
    room: nat,
) -> bool {
    parse_decrypt_request(request) matches Some((_, _, _, ciphertext)) ==> {
        ciphertext.len() <= room && ks.aead_key(badge, key, KeyOps(OPS_DECRYPT)) is Ok
            ==> keystream_covers(ciphertext.len())
    }
}

/// Whether the key stream reaches to the end of what a request would have the
/// cipher work on.
pub open spec fn covered(
    ks: KeystoreView,
    badge: u64,
    op: u16,
    request: Seq<u8>,
    room: nat,
) -> bool {
    match ks.grant(badge) {
        None => true,
        Some(g) => {
            &&& op == OP_ENCRYPT ==> encrypt_covered(ks, badge, g.key, request, room)
            &&& op == OP_DECRYPT ==> decrypt_covered(ks, badge, g.key, request, room)
        },
    }
}

/// The status that reports `err`.
pub fn status_for(err: KeystoreError) -> (status: u16)
    ensures
        status == status_of(err),
        status == match err {
            KeystoreError::UnknownBadge => 1u16,
            KeystoreError::BadgeRevoked => 1u16,
            KeystoreError::WrongKey => 1u16,
            KeystoreError::OpNotGranted => 1u16,
            KeystoreError::KeyDestroyed => 3u16,
            KeystoreError::CryptoFailure => 3u16,
            _ => 2u16,
        },
{
    match err {
        KeystoreError::UnknownBadge
        | KeystoreError::BadgeRevoked
        | KeystoreError::WrongKey
        | KeystoreError::OpNotGranted => status::ACCESS,
        KeystoreError::KeyDestroyed | KeystoreError::CryptoFailure => status::FAILED,
        _ => status::INVALID,
    }
}

/// Reads a length-prefixed field; returns it and what follows. `None` where
/// the length would reach past `bytes`.
pub fn read_prefixed(bytes: &[u8]) -> (parsed: Option<(&[u8], &[u8])>)
    ensures
        match parse_prefixed(bytes@) {
            Some((f, r)) => parsed matches Some((field, rest)) && field@ == f && rest@ == r,
            None => parsed is None,
        },
        parsed matches Some((field, rest)) ==> {
            &&& bytes@.len() == 4 + field@.len() + rest@.len()
            &&& bytes@.skip(4) == field@ + rest@
            &&& field@.len() == bytes@[0] as int + 256 * bytes@[1] as int + 65536 * bytes@[2] as int
                + 16777216 * bytes@[3] as int
        },
{
    if bytes.len() < PREFIX_LEN {
        return None;
    }
    let len: usize = u32_from_le(bytes) as usize;
    if len > bytes.len() - PREFIX_LEN {
        return None;
    }
    let end: usize = PREFIX_LEN + len;
    proof {
        four_bytes_add_up(bytes@.take(4));
        assert(bytes@.skip(4) =~= bytes@.subrange(4, end as int) + bytes@.skip(end as int));
    }
    Some((slice_subrange(bytes, PREFIX_LEN, end), slice_subrange(bytes, end, bytes.len())))
}

/// Truncating a number to four bytes before encoding it changes nothing.
proof fn truncated_length_encodes_the_same(len: usize)
    ensures
        le_bytes((len as u32) as nat, 4) == le_bytes(len as nat, 4),
{
    let (x, y) = ((len as u32) as nat, len as nat);
    reveal_with_fuel(byte_span, 5);
    let wide: u64 = len as u64;
    assert(len as u32 == (len as u64) as u32) by (bit_vector);
    assert(wide as u32 == wide % 0x1_0000_0000) by (bit_vector);
    le_value_of_le_bytes(x, 4);
    le_value_of_le_bytes(y, 4);
    le_bytes_len(x, 4);
    le_bytes_len(y, 4);
    le_bytes_of_le_value(le_bytes(x, 4));
    le_bytes_of_le_value(le_bytes(y, 4));
}

/// Copies `field` over `buf` from `at` on.
fn copy_at(buf: &mut [u8], at: usize, field: &[u8])
    requires
        at + field@.len() <= old(buf)@.len(),
    ensures
        final(buf)@ == overwrite(old(buf)@, at as int, field@),
{
    let ghost before = buf@;
    let (_head, tail) = buf.split_at_mut(at);
    copy_into(tail, field);
    proof {
        assert(before.take(at as int) + overwrite(before.skip(at as int), 0, field@) =~= overwrite(
            before,
            at as int,
            field@,
        ));
    }
}

/// Writes a length-prefixed field into `buf` at `offset`; returns the offset
/// just past it, or `None` if it does not fit.
pub fn write_prefixed(buf: &mut [u8], offset: usize, field: &[u8]) -> (written: Option<usize>)
    ensures
        written is Some <==> offset + PREFIX_LEN + field@.len() <= old(buf)@.len(),
        written matches Some(end) ==> {
            &&& end == offset + PREFIX_LEN + field@.len()
            &&& final(buf)@ == overwrite(old(buf)@, offset as int, prefixed(field@))
        },
        written is None ==> final(buf)@ == old(buf)@,
{
    let room: usize = buf.len();
    if room < PREFIX_LEN || offset > room - PREFIX_LEN || field.len() > room - PREFIX_LEN - offset {
        return None;
    }
    let start: usize = offset + PREFIX_LEN;
    let ghost before = buf@;
    copy_at(buf, offset, &u32_to_le(field.len() as u32));
    copy_at(buf, start, field);
    proof {
        truncated_length_encodes_the_same(field@.len() as usize);
        le_bytes_len(field@.len(), 4);
        assert(buf@ =~= overwrite(before, offset as int, prefixed(field@)));
    }
    Some(start + field.len())
}

/// Encodes a SIGN request: the message as it is. A function only for symmetry
/// with the other encoders.
pub fn encode_sign_request(message: &[u8]) -> (request: &[u8])
    ensures
        request == message,
{
    message
}

/// Decodes a SIGN reply: the signature as it is.
pub fn decode_sign_reply(reply: &[u8]) -> (signature: &[u8])
    ensures
        signature == reply,
{
    reply
}

/// Decodes a DECRYPT reply: the plaintext as it is, empty unless the status is
/// [`status::OK`].
pub fn decode_decrypt_reply(reply: &[u8]) -> (plaintext: &[u8])
    ensures
        plaintext == reply,
{
    reply
}

/// Encodes an ENCRYPT request into `buf`; returns its length, or `None` if
/// `buf` is too small. The leading parts that do fit are written either way.
pub fn encode_encrypt_request(
    nonce: &[u8; NONCE_LEN],
    aad: &[u8],
    plaintext: &[u8],
    buf: &mut [u8],
) -> (written: Option<usize>)
    ensures
        written is Some <==> encrypt_request(nonce@, aad@, plaintext@).len() <= old(buf)@.len(),
        written matches Some(len) ==> {
            &&& len == encrypt_request(nonce@, aad@, plaintext@).len()
            &&& final(buf)@ == overwrite(
                old(buf)@,
                0,
                encrypt_request(nonce@, aad@, plaintext@),
            )
        },
        final(buf)@ == overwrite(
            old(buf)@,
            0,
            what_fits(
                old(buf)@.len() as int,
                seq![prefixed(nonce@), prefixed(aad@), plaintext@],
            ),
        ),
{
    let ghost before = buf@;
    let ghost room = before.len() as int;
    let ghost (p, q, r) = (prefixed(nonce@), prefixed(aad@), plaintext@);
    proof {
        le_bytes_len(nonce@.len(), 4);
        le_bytes_len(aad@.len(), 4);
        what_fits_of_three(room, p, q, r);
        assert(overwrite(before, 0, Seq::empty()) =~= before);
    }
    let off: usize = write_prefixed(buf, 0, nonce)?;
    let off: usize = write_prefixed(buf, off, aad)?;
    proof {
        assert(buf@ =~= overwrite(before, 0, p + q));
    }
    if plaintext.len() > buf.len() - off {
        return None;
    }
    copy_at(buf, off, plaintext);
    proof {
        assert(buf@ =~= overwrite(before, 0, p + q + r));
    }
    Some(off + plaintext.len())
}

/// Of three parts, one behind the other, as many as there is room for: a part
/// that does not fit ends it.
pub proof fn what_fits_of_three(room: int, p: Seq<u8>, q: Seq<u8>, r: Seq<u8>)
    ensures
        what_fits(room, seq![p, q, r]) == if p.len() > room {
            Seq::empty()
        } else if p.len() + q.len() > room {
            p
        } else if p.len() + q.len() + r.len() > room {
            p + q
        } else {
            p + q + r
        },
{
    reveal_with_fuel(what_fits, 4);
    assert(seq![p, q, r].drop_first() =~= seq![q, r]);
    assert(seq![q, r].drop_first() =~= seq![r]);
    assert(seq![r].drop_first() =~= Seq::<Seq<u8>>::empty());
    assert(p + (q + (r + Seq::<u8>::empty())) =~= p + q + r);
    assert(p + (q + Seq::<u8>::empty()) =~= p + q);
    assert(p + Seq::<u8>::empty() =~= p);
}

/// The bytes of `s` as an array, if there are just as many as it takes.
fn to_array<const N: usize>(s: &[u8]) -> (array: Option<[u8; N]>)
    ensures
        array is Some <==> s@.len() == N,
        array matches Some(a) ==> a@ == s@,
{
    if s.len() != N {
        return None;
    }
    let mut array: [u8; N] = [0u8;N];
    let mut i: usize = 0;
    while i < N
        invariant
            i <= N,
            s@.len() == N,
            forall|j: int| 0 <= j < i ==> array@[j] == s@[j],
        decreases N - i,
    {
        array[i] = s[i];
        i = i + 1;
    }
    proof {
        assert(array@ =~= s@);
    }
    Some(array)
}

/// Decodes an ENCRYPT reply into tag and ciphertext; `None` if it is malformed
/// or the tag has the wrong length.
pub fn decode_encrypt_reply(reply: &[u8]) -> (decoded: Option<([u8; TAG_LEN], &[u8])>)
    ensures
        match parse_encrypt_reply(reply@) {
            Some((t, c)) => decoded matches Some((tag, ciphertext)) && tag@ == t && ciphertext@
                == c,
            None => decoded is None,
        },
{
    let (tag, ciphertext) = read_prefixed(reply)?;
    let tag: [u8; TAG_LEN] = to_array(tag)?;
    Some((tag, ciphertext))
}

/// Encodes a DECRYPT request into `buf`; returns its length, or `None` if
/// `buf` is too small. The leading parts that do fit are written either way.
pub fn encode_decrypt_request(
    nonce: &[u8; NONCE_LEN],
    aad: &[u8],
    tag: &[u8; TAG_LEN],
    ciphertext: &[u8],
    buf: &mut [u8],
) -> (written: Option<usize>)
    ensures
        written is Some <==> decrypt_request(nonce@, aad@, tag@, ciphertext@).len() <= old(
            buf,
        )@.len(),
        written matches Some(len) ==> {
            &&& len == decrypt_request(nonce@, aad@, tag@, ciphertext@).len()
            &&& final(buf)@ == overwrite(
                old(buf)@,
                0,
                decrypt_request(nonce@, aad@, tag@, ciphertext@),
            )
        },
        final(buf)@ == overwrite(
            old(buf)@,
            0,
            what_fits(
                old(buf)@.len() as int,
                seq![prefixed(nonce@), prefixed(aad@), prefixed(tag@), ciphertext@],
            ),
        ),
{
    let ghost before = buf@;
    let ghost room = before.len() as int;
    let ghost (p, q, r, t) = (prefixed(nonce@), prefixed(aad@), prefixed(tag@), ciphertext@);
    proof {
        le_bytes_len(nonce@.len(), 4);
        le_bytes_len(aad@.len(), 4);
        le_bytes_len(tag@.len(), 4);
        what_fits_of_four(room, p, q, r, t);
        assert(overwrite(before, 0, Seq::empty()) =~= before);
    }
    let off: usize = write_prefixed(buf, 0, nonce)?;
    let off: usize = write_prefixed(buf, off, aad)?;
    proof {
        assert(buf@ =~= overwrite(before, 0, p + q));
    }
    let off: usize = write_prefixed(buf, off, tag)?;
    proof {
        assert(buf@ =~= overwrite(before, 0, p + q + r));
    }
    if ciphertext.len() > buf.len() - off {
        return None;
    }
    copy_at(buf, off, ciphertext);
    proof {
        assert(buf@ =~= overwrite(before, 0, p + q + r + t));
    }
    Some(off + ciphertext.len())
}

/// Of four parts, one behind the other, as many as there is room for: a part
/// that does not fit ends it.
pub proof fn what_fits_of_four(room: int, p: Seq<u8>, q: Seq<u8>, r: Seq<u8>, t: Seq<u8>)
    ensures
        what_fits(room, seq![p, q, r, t]) == if p.len() > room {
            Seq::empty()
        } else if p.len() + q.len() > room {
            p
        } else if p.len() + q.len() + r.len() > room {
            p + q
        } else if p.len() + q.len() + r.len() + t.len() > room {
            p + q + r
        } else {
            p + q + r + t
        },
{
    assert(seq![p, q, r, t].drop_first() =~= seq![q, r, t]);
    what_fits_of_three(room - p.len(), q, r, t);
    assert(p + (q + r + t) =~= p + q + r + t);
    assert(p + (q + r) =~= p + q + r);
    assert(p + Seq::<u8>::empty() =~= p);
}

/// Whether a request may be handed to [`handle_request`] with a reply buffer
/// of `room` bytes: the key stream reaches to the end of what the cipher would
/// work on, or the cipher would not be asked at all.
pub fn request_is_covered(
    keystore: &Keystore,
    badge: u64,
    op: u16,
    request: &[u8],
    room: usize,
) -> (yes: bool)
    ensures
        yes == covered(keystore@, badge, op, request@, room as nat),
{
    let key = match keystore.key_for_badge(badge) {
        Some(key) => key,
        None => return true,
    };
    if op != OP_ENCRYPT && op != OP_DECRYPT {
        return true;
    }
    let (nonce, rest) = match read_prefixed(request) {
        Some(parsed) => parsed,
        None => return true,
    };
    let (_aad, text) = match read_prefixed(rest) {
        Some(parsed) => parsed,
        None => return true,
    };
    if nonce.len() != NONCE_LEN {
        return true;
    }
    if op == OP_ENCRYPT {
        return room < REPLY_HEADER_LEN || room - REPLY_HEADER_LEN < text.len()
            || keystream_reaches(text.len()) || keystore.aead_key(
            badge,
            key,
            KeyOps::encrypt(),
        ).is_err();
    }
    match read_prefixed(text) {
        Some((tag, ciphertext)) => tag.len() != TAG_LEN || room < ciphertext.len()
            || keystream_reaches(ciphertext.len()) || keystore.aead_key(
            badge,
            key,
            KeyOps::decrypt(),
        ).is_err(),
        None => true,
    }
}

/// Builds the reply to a SIGN request from what signing came to.
pub fn sign_reply(signed: Result<[u8; SIGNATURE_LEN], KeystoreError>, reply_buf: &mut [u8]) -> (done:
    (u16, usize))
    ensures
        (Reply { status: done.0, len: done.1 as int, buf: final(reply_buf)@ }) == sign_reply_of(
            match signed {
                Ok(signature) => Ok(signature@),
                Err(e) => Err(e),
            },
            old(reply_buf)@,
        ),
        done.1 <= final(reply_buf)@.len() == old(reply_buf)@.len(),
        done.0 == status::OK ==> final(reply_buf)@.skip(done.1 as int) == old(reply_buf)@.skip(
            done.1 as int,
        ),
        match signed {
            Ok(signature) => if old(reply_buf)@.len() >= 64 {
                &&& done == (0u16, 64usize)
                &&& final(reply_buf)@.take(64) == signature@
                &&& final(reply_buf)@.skip(64) == old(reply_buf)@.skip(64)
            } else {
                done == (2u16, 0usize) && final(reply_buf)@ == old(reply_buf)@
            },
            Err(e) => done == (status_of(e), 0usize) && final(reply_buf)@ == old(reply_buf)@,
        },
{
    match signed {
        Ok(signature) => if reply_buf.len() >= SIGNATURE_LEN {
            copy_into(reply_buf, &signature);
            proof {
                assert(reply_buf@.take(64) =~= signature@);
            }
            (status::OK, SIGNATURE_LEN)
        } else {
            (status::INVALID, 0)
        },
        Err(e) => (status_for(e), 0),
    }
}

/// SIGN: the request is the message; the reply is the signature.
fn handle_sign(
    keystore: &Keystore,
    badge: u64,
    key: KeyId,
    request: &[u8],
    reply_buf: &mut [u8],
) -> (done: (u16, usize))
    ensures
        (Reply { status: done.0, len: done.1 as int, buf: final(reply_buf)@ }) == sign_reply_of(
            keystore@.sign_outcome(badge, key, request@),
            old(reply_buf)@,
        ),
        done.1 <= final(reply_buf)@.len() == old(reply_buf)@.len(),
        done.0 == status::OK ==> final(reply_buf)@.skip(done.1 as int) == old(reply_buf)@.skip(
            done.1 as int,
        ),
        keystore@.sign_outcome(badge, key, request@) is Ok ==> done == if old(reply_buf)@.len()
            >= SIGNATURE_LEN {
            (status::OK, SIGNATURE_LEN)
        } else {
            (status::INVALID, 0)
        },
        done.0 == status::OK ==> done.1 == SIGNATURE_LEN,
        done.0 == status::OK ==> keystore@.sign_outcome(badge, key, request@) == Ok::<
            Seq<u8>,
            KeystoreError,
        >(final(reply_buf)@.take(done.1 as int)),
        done.0 == status::OK ==> keystore@.verify_outcome(
            key,
            request@,
            final(reply_buf)@.take(done.1 as int),
        ) is Ok,
{
    let signed = keystore.sign(badge, key, request);
    let done: (u16, usize) = sign_reply(signed, reply_buf);
    proof {
        if let Ok(signature) = signed {
            if done.0 == status::OK {
                assert(reply_buf@.take(done.1 as int) =~= signature@);
            }
        }
    }
    done
}

/// Completes the reply to an ENCRYPT request from what encryption came to:
/// `len` bytes of ciphertext already stand behind the header's place.
pub fn finish_encrypt(
    sealed: Result<[u8; TAG_LEN], KeystoreError>,
    len: usize,
    reply_buf: &mut [u8],
) -> (done: (u16, usize))
    requires
        REPLY_HEADER_LEN + len <= old(reply_buf)@.len(),
    ensures
        match sealed {
            Ok(tag) => {
                &&& done == (status::OK, (REPLY_HEADER_LEN + len) as usize)
                &&& final(reply_buf)@ == overwrite(old(reply_buf)@, 0, prefixed(tag@))
            },
            Err(e) => {
                &&& done == (status_of(e), 0usize)
                &&& final(reply_buf)@ == old(reply_buf)@
            },
        },
{
    match sealed {
        Ok(tag) => {
            proof {
                assert(reply_buf.len() == reply_buf@.len());
            }
            let _end = write_prefixed(reply_buf, 0, &tag);
            (status::OK, REPLY_HEADER_LEN + len)
        },
        Err(e) => (status_for(e), 0),
    }
}

/// Completes the reply to a DECRYPT request from what decryption came to:
/// `len` bytes of plaintext already stand in the reply buffer, or what was to
/// be decrypted does, and then none of it counts.
pub fn finish_decrypt(opened: Result<(), KeystoreError>, len: usize) -> (done: (u16, usize))
    ensures
        done == match opened {
            Ok(()) => (status::OK, len),
            Err(e) => (status_of(e), 0usize),
        },
{
    match opened {
        Ok(()) => (status::OK, len),
        Err(e) => (status_for(e), 0),
    }
}

/// ENCRYPT: the request is prefixed nonce, prefixed associated data and
/// plaintext; the reply is prefixed tag and ciphertext.
fn handle_encrypt(
    keystore: &Keystore,
    badge: u64,
    key: KeyId,
    request: &[u8],
    reply_buf: &mut [u8],
) -> (done: (u16, usize))
    requires
        encrypt_covered(keystore@, badge, key, request@, old(reply_buf)@.len()),
    ensures
        (Reply { status: done.0, len: done.1 as int, buf: final(reply_buf)@ })
            == match parse_encrypt_request(request@) {
            None => refusal(status::INVALID, old(reply_buf)@),
            Some((nonce, aad, plaintext)) => encrypt_reply_of(
                keystore@.encrypt_outcome(badge, key, nonce, aad, plaintext),
                plaintext,
                old(reply_buf)@,
            ),
        },
        done.1 <= final(reply_buf)@.len() == old(reply_buf)@.len(),
        done.0 == status::OK ==> final(reply_buf)@.skip(done.1 as int) == old(reply_buf)@.skip(
            done.1 as int,
        ),
        done.0 == status::OK ==> ({
            &&& parse_encrypt_request(request@) matches Some((nonce, aad, plaintext))
            &&& keystore@.encrypt_outcome(badge, key, nonce, aad, plaintext) matches Ok(
                (ciphertext, tag),
            )
            &&& tag.len() == TAG_LEN
            &&& ciphertext.len() == plaintext.len()
            &&& final(reply_buf)@.take(done.1 as int) == encrypt_reply(tag, ciphertext)
        }),
        done.0 == status::OK ==> decrypts_over_the_wire(
            keystore@.aead_key(badge, key, KeyOps(OPS_ENCRYPT)),
            request@,
            final(reply_buf)@.take(done.1 as int),
        ),
{
    let ghost before = reply_buf@;
    let (nonce, rest) = match read_prefixed(request) {
        Some(parsed) => parsed,
        None => return (status::INVALID, 0),
    };
    let (aad, plaintext) = match read_prefixed(rest) {
        Some(parsed) => parsed,
        None => return (status::INVALID, 0),
    };
    let nonce: [u8; NONCE_LEN] = match to_array(nonce) {
        Some(nonce) => nonce,
        None => return (status::INVALID, 0),
    };
    let len: usize = plaintext.len();
    if reply_buf.len() < REPLY_HEADER_LEN || reply_buf.len() - REPLY_HEADER_LEN < len {
        return (status::INVALID, 0);
    }
    let (_header, tail) = reply_buf.split_at_mut(REPLY_HEADER_LEN);
    let (body, _rest) = tail.split_at_mut(len);
    copy_into(body, plaintext);
    proof {
        assert(body@ =~= plaintext@);
    }
    let sealed = keystore.encrypt(badge, key, &nonce, aad, body);
    let ghost midway = reply_buf@;
    let done: (u16, usize) = finish_encrypt(sealed, len, reply_buf);
    proof {
        le_bytes_len(TAG_LEN as nat, 4);
        match keystore@.encrypt_outcome(badge, key, nonce@, aad@, plaintext@) {
            Ok((ciphertext, tag)) => {
                assert(midway =~= overwrite(before, REPLY_HEADER_LEN as int, ciphertext));
                assert(reply_buf@ =~= overwrite(before, 0, encrypt_reply(tag, ciphertext)));
                assert(reply_buf@.take(done.1 as int) =~= encrypt_reply(tag, ciphertext));
                encryption_carries_over_the_wire(
                    keystore@.aead_key(badge, key, KeyOps(OPS_ENCRYPT)),
                    request@,
                    tag,
                    ciphertext,
                );
            },
            Err(_) => {
                assert(reply_buf@ =~= overwrite(before, REPLY_HEADER_LEN as int, plaintext@));
            },
        }
    }
    done
}

/// DECRYPT: the request is prefixed nonce, prefixed associated data, prefixed
/// tag and ciphertext; the reply is the plaintext.
fn handle_decrypt(
    keystore: &Keystore,
    badge: u64,
    key: KeyId,
    request: &[u8],
    reply_buf: &mut [u8],
) -> (done: (u16, usize))
    requires
        decrypt_covered(keystore@, badge, key, request@, old(reply_buf)@.len()),
    ensures
        (Reply { status: done.0, len: done.1 as int, buf: final(reply_buf)@ })
            == match parse_decrypt_request(request@) {
            None => refusal(status::INVALID, old(reply_buf)@),
            Some((nonce, aad, tag, ciphertext)) => decrypt_reply_of(
                keystore@.decrypt_outcome(badge, key, nonce, aad, ciphertext, tag),
                ciphertext,
                old(reply_buf)@,
            ),
        },
        done.1 <= final(reply_buf)@.len() == old(reply_buf)@.len(),
        done.0 == status::OK ==> final(reply_buf)@.skip(done.1 as int) == old(reply_buf)@.skip(
            done.1 as int,
        ),
        done.0 == status::OK ==> ({
            &&& parse_decrypt_request(request@) matches Some((nonce, aad, tag, ciphertext))
            &&& keystore@.decrypt_outcome(badge, key, nonce, aad, ciphertext, tag) == Ok::<
                Seq<u8>,
                KeystoreError,
            >(final(reply_buf)@.take(done.1 as int))
        }),
{
    let ghost before = reply_buf@;
    let (nonce, rest) = match read_prefixed(request) {
        Some(parsed) => parsed,
        None => return (status::INVALID, 0),
    };
    let (aad, rest) = match read_prefixed(rest) {
        Some(parsed) => parsed,
        None => return (status::INVALID, 0),
    };
    let (tag, ciphertext) = match read_prefixed(rest) {
        Some(parsed) => parsed,
        None => return (status::INVALID, 0),
    };
    let nonce: [u8; NONCE_LEN] = match to_array(nonce) {
        Some(nonce) => nonce,
        None => return (status::INVALID, 0),
    };
    let tag: [u8; TAG_LEN] = match to_array(tag) {
        Some(tag) => tag,
        None => return (status::INVALID, 0),
    };
    let len: usize = ciphertext.len();
    if reply_buf.len() < len {
        return (status::INVALID, 0);
    }
    let (body, _rest) = reply_buf.split_at_mut(len);
    copy_into(body, ciphertext);
    proof {
        assert(body@ =~= ciphertext@);
    }
    let opened = keystore.decrypt(badge, key, &nonce, aad, body, &tag);
    proof {
        match keystore@.decrypt_outcome(badge, key, nonce@, aad@, ciphertext@, tag@) {
            Ok(plaintext) => {
                assert(reply_buf@ =~= overwrite(before, 0, plaintext));
                assert(reply_buf@.take(len as int) =~= plaintext);
            },
            Err(_) => {
                assert(reply_buf@ =~= overwrite(before, 0, ciphertext@));
            },
        }
    }
    finish_decrypt(opened, len)
}

/// Handles one request on behalf of `badge`, which is the sender's identity as
/// the kernel delivered it; the key is never on the wire. Writes the reply
/// into `reply_buf` and returns the status and the length of the payload,
/// which is empty unless the status is [`status::OK`].
///
/// The payload is the signature, the prefixed tag and ciphertext, or the
/// plaintext, and nothing behind it in `reply_buf` is touched. A signature that
/// is sent back verifies under the badge's key. What is encrypted decrypts in a
/// later request.
pub fn handle_request(
    keystore: &Keystore,
    badge: u64,
    op: u16,
    request: &[u8],
    reply_buf: &mut [u8],
) -> (done: (u16, usize))
    requires
        covered(keystore@, badge, op, request@, old(reply_buf)@.len()),
    ensures
        (Reply { status: done.0, len: done.1 as int, buf: final(reply_buf)@ }) == reply_to(
            keystore@,
            badge,
            op,
            request@,
            old(reply_buf)@,
        ),
        done.0 != status::OK ==> done.1 == 0,
        done.1 <= final(reply_buf)@.len() == old(reply_buf)@.len(),
        done.0 == status::OK ==> final(reply_buf)@.skip(done.1 as int) == old(reply_buf)@.skip(
            done.1 as int,
        ),
        op == OP_SIGN && keystore@.grant(badge) is Some && keystore@.sign_outcome(
            badge,
            keystore@.grant(badge)->0.key,
            request@,
        ) is Ok ==> done == if old(reply_buf)@.len() >= SIGNATURE_LEN {
            (status::OK, SIGNATURE_LEN)
        } else {
            (status::INVALID, 0)
        },
        done.0 == status::OK && op == OP_SIGN ==> done.1 == SIGNATURE_LEN,
        done.0 == status::OK && op == OP_SIGN ==> keystore@.sign_outcome(
            badge,
            keystore@.grant(badge)->0.key,
            request@,
        ) == Ok::<Seq<u8>, KeystoreError>(final(reply_buf)@.take(done.1 as int)),
        done.0 == status::OK && op == OP_ENCRYPT ==> ({
            &&& parse_encrypt_request(request@) matches Some((nonce, aad, plaintext))
            &&& keystore@.encrypt_outcome(
                badge,
                keystore@.grant(badge)->0.key,
                nonce,
                aad,
                plaintext,
            ) matches Ok((ciphertext, tag))
            &&& tag.len() == TAG_LEN
            &&& ciphertext.len() == plaintext.len()
            &&& final(reply_buf)@.take(done.1 as int) == encrypt_reply(tag, ciphertext)
        }),
        done.0 == status::OK && op == OP_DECRYPT ==> ({
            &&& parse_decrypt_request(request@) matches Some((nonce, aad, tag, ciphertext))
            &&& keystore@.decrypt_outcome(
                badge,
                keystore@.grant(badge)->0.key,
                nonce,
                aad,
                ciphertext,
                tag,
            ) == Ok::<Seq<u8>, KeystoreError>(final(reply_buf)@.take(done.1 as int))
        }),
        done.0 == status::OK && op == OP_SIGN ==> keystore@.verify_outcome(
            keystore@.grant(badge)->0.key,
            request@,
            final(reply_buf)@.take(done.1 as int),
        ) is Ok,
        done.0 == status::OK && op == OP_ENCRYPT ==> decrypts_over_the_wire(
            keystore@.aead_key(badge, keystore@.grant(badge)->0.key, KeyOps(OPS_ENCRYPT)),
            request@,
            final(reply_buf)@.take(done.1 as int),
        ),
{
    let key = match keystore.key_for_badge(badge) {
        Some(key) => key,
        None => return (status::ACCESS, 0),
    };
    match op {
        OP_SIGN => handle_sign(keystore, badge, key, request, reply_buf),
        OP_ENCRYPT => handle_encrypt(keystore, badge, key, request, reply_buf),
        OP_DECRYPT => handle_decrypt(keystore, badge, key, request, reply_buf),
        _ => (status::INVALID, 0),
    }
}

} // verus!
