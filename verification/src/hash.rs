//! BLAKE3 hashing, in two distinct uses:
//!
//! - [`hash`] and [`Hasher`]: plain, unkeyed hashing. There is no secret
//!   material here, so nothing gates it: naming a block by its content needs
//!   no permission, only storing or fetching the block does.
//! - [`MacKey`]: BLAKE3's native keyed mode, used as a message authentication
//!   code. A MAC key is secret material, so it has the shape of the other keys
//!   of this crate, and the keystore gates it the same way.

use blake3::Hasher as Blake3Stream;
use subtle::ConstantTimeEq;
use vstd::prelude::*;

use crate::secret::{expose, guard, secret_contents, Secret};

verus! {

pub const HASH_LEN: usize = 32;

pub const MAC_KEY_LEN: usize = 32;

/// The BLAKE3 hash of `data`.
pub uninterp spec fn blake3_hash(data: Seq<u8>) -> Seq<u8>;

/// The BLAKE3 keyed hash of `data` under `key`.
pub uninterp spec fn blake3_keyed_hash(key: Seq<u8>, data: Seq<u8>) -> Seq<u8>;

/// The bytes that a BLAKE3 hasher has been fed so far.
pub uninterp spec fn absorbed(hasher: Blake3Stream) -> Seq<u8>;

/// Whether a BLAKE3 hasher is a plain one: for the unkeyed hash of a whole
/// input, and not for another mode or for a part further in.
pub uninterp spec fn plain(hasher: Blake3Stream) -> bool;

/// The incremental BLAKE3 hasher.
#[verifier::external_type_specification]
#[verifier::external_body]
pub struct ExBlake3Stream(Blake3Stream);

/// `blake3::hash`: the hash of `data`.
#[verifier::external_body]
fn digest(data: &[u8]) -> (out: [u8; HASH_LEN])
    ensures
        out@ == blake3_hash(data@),
{
    *blake3::hash(data).as_bytes()
}

/// `blake3::keyed_hash`: the keyed hash of `data` under `key`.
#[verifier::external_body]
fn keyed_digest(key: &[u8; MAC_KEY_LEN], data: &[u8]) -> (out: [u8; HASH_LEN])
    ensures
        out@ == blake3_keyed_hash(key@, data@),
{
    *blake3::keyed_hash(key, data).as_bytes()
}

/// `blake3::Hasher::new`: a plain hasher that has been fed nothing.
#[verifier::external_body]
fn hasher_new() -> (hasher: Blake3Stream)
    ensures
        plain(hasher),
        absorbed(hasher) == Seq::<u8>::empty(),
{
    Blake3Stream::new()
}

/// `blake3::Hasher::update`: feeds `data` to the hasher, after all that it was
/// fed before, and leaves it a plain one. BLAKE3 is defined on inputs
/// of fewer than 2 to the 64 bytes.
#[verifier::external_body]
fn hasher_update(hasher: &mut Blake3Stream, data: &[u8])
    requires
        plain(*old(hasher)),
        absorbed(*old(hasher)).len() + data@.len() <= u64::MAX,
    ensures
        absorbed(*final(hasher)) == absorbed(*old(hasher)) + data@,
        plain(*final(hasher)),
    no_unwind
{
    hasher.update(data);
}

/// `blake3::Hasher::finalize`: the hash of all that a plain hasher was fed.
#[verifier::external_body]
fn hasher_finalize(hasher: &Blake3Stream) -> (out: [u8; HASH_LEN])
    requires
        plain(*hasher),
    ensures
        out@ == blake3_hash(absorbed(*hasher)),
{
    *hasher.finalize().as_bytes()
}

/// `subtle::ConstantTimeEq::ct_eq` on byte slices: whether the two hold the
/// same bytes, in a time that does not depend on where they differ.
#[verifier::external_body]
fn constant_time_eq(a: &[u8; HASH_LEN], b: &[u8; HASH_LEN]) -> (same: bool)
    ensures
        same == (a@ == b@),
{
    a.ct_eq(b).into()
}

/// A BLAKE3 hash or MAC.
#[derive(Clone, Copy, PartialEq, Eq, Debug)]
pub struct Hash([u8; HASH_LEN]);

impl View for Hash {
    type V = Seq<u8>;

    /// The hash's bytes.
    closed spec fn view(&self) -> Seq<u8> {
        self.0@
    }
}

impl Hash {
    pub fn as_bytes(&self) -> (bytes: &[u8; HASH_LEN])
        ensures
            bytes@ == self@,
    {
        &self.0
    }

    /// Equality in constant time: a MAC comparison must never stop at the
    /// first byte that differs.
    pub fn ct_eq(&self, other: &Hash) -> (same: bool)
        ensures
            same == (self@ == other@),
    {
        constant_time_eq(&self.0, &other.0)
    }
}

/// Hashes `data` in one call.
pub fn hash(data: &[u8]) -> (out: Hash)
    ensures
        out@ == blake3_hash(data@),
        out@.len() == HASH_LEN,
{
    Hash(digest(data))
}

/// A streaming hasher for content too large to hold in memory at once.
pub struct Hasher(Blake3Stream);

impl View for Hasher {
    type V = Seq<u8>;

    /// Everything that the hasher has been fed so far.
    closed spec fn view(&self) -> Seq<u8> {
        absorbed(self.0)
    }
}

impl Default for Hasher {
    fn default() -> (hasher: Self)
        ensures
            hasher@ == Seq::<u8>::empty(),
    {
        Hasher::new()
    }
}

impl Hasher {
    /// The hasher inside is a plain one.
    #[verifier::type_invariant]
    spec fn is_plain(&self) -> bool {
        plain(self.0)
    }

    pub fn new() -> (hasher: Self)
        ensures
            hasher@ == Seq::<u8>::empty(),
    {
        Hasher(hasher_new())
    }

    /// Feeds `data` to the hasher and hands the hasher back, so that calls
    /// can be chained.
    pub fn update(&mut self, data: &[u8]) -> (hasher: &mut Self)
        requires
            old(self)@.len() + data@.len() <= u64::MAX,
        ensures
            hasher@ == old(self)@ + data@,
            *final(self) == *final(hasher),
    {
        proof {
            use_type_invariant(&*self);
        }
        hasher_update(&mut self.0, data);
        self
    }

    /// The hash of everything fed so far, which is what [`hash`] makes of the
    /// same bytes in one piece. The hasher can be fed on afterwards.
    pub fn finalize(&self) -> (out: Hash)
        ensures
            out@ == blake3_hash(self@),
            out@.len() == HASH_LEN,
    {
        proof {
            use_type_invariant(self);
        }
        Hash(hasher_finalize(&self.0))
    }
}

/// MAC verification failed.
#[derive(Clone, Copy, PartialEq, Eq, Debug, Structural)]
pub struct MacError;

/// A BLAKE3 keyed-mode key, used as a MAC key. Wiped on drop.
pub struct MacKey(Secret);

impl View for MacKey {
    type V = Seq<u8>;

    /// The key's bytes.
    closed spec fn view(&self) -> Seq<u8> {
        secret_contents(self.0)
    }
}

impl MacKey {
    /// Builds a key from raw bytes. A sealed token's MAC chain turns each
    /// link's MAC into the key of the next link this way; such bytes are not
    /// random, but exactly as valid a BLAKE3 key.
    pub fn from_bytes(bytes: [u8; MAC_KEY_LEN]) -> (key: Self)
        ensures
            key@ == bytes@,
    {
        MacKey(guard(bytes))
    }

    /// Builds a key from caller-supplied random bytes.
    pub fn from_random_bytes(bytes: [u8; MAC_KEY_LEN]) -> (key: Self)
        ensures
            key@ == bytes@,
    {
        Self::from_bytes(bytes)
    }

    pub fn compute(&self, data: &[u8]) -> (mac: Hash)
        ensures
            mac@ == blake3_keyed_hash(self@, data@),
            mac@.len() == HASH_LEN,
    {
        Hash(keyed_digest(expose(&self.0), data))
    }

    /// Accepts exactly the MAC that [`MacKey::compute`] gives for `data`. The
    /// comparison takes constant time.
    pub fn verify(&self, data: &[u8], mac: &Hash) -> (verdict: Result<(), MacError>)
        ensures
            verdict is Ok <==> mac@ == blake3_keyed_hash(self@, data@),
    {
        let computed = self.compute(data);
        if computed.ct_eq(mac) {
            Ok(())
        } else {
            Err(MacError)
        }
    }
}

/// What a new hasher holds after it has been fed `pieces` one after the other.
pub open spec fn fed(pieces: Seq<Seq<u8>>) -> Seq<u8>
    decreases pieces.len(),
{
    if pieces.len() == 0 {
        Seq::empty()
    } else {
        fed(pieces.drop_last()) + pieces.last()
    }
}

/// How the input is cut into pieces does not matter: feeding them to a hasher
/// gives the hash of the whole.
pub proof fn streaming_hashes_the_whole(pieces: Seq<Seq<u8>>)
    ensures
        blake3_hash(fed(pieces)) == blake3_hash(pieces.flatten()),
{
    fed_is_concatenation(pieces);
}

proof fn fed_is_concatenation(pieces: Seq<Seq<u8>>)
    ensures
        fed(pieces) == pieces.flatten(),
    decreases pieces.len(),
{
    if pieces.len() > 0 {
        fed_is_concatenation(pieces.drop_last());
        pieces.drop_last().lemma_flatten_push(pieces.last());
        assert(pieces.drop_last().push(pieces.last()) =~= pieces);
    }
}

} // verus!
