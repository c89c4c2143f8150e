//! Sealed capabilities: macaroon-style bearer tokens for delegation that
//! crosses machines or outlives a process. A token names an identifier and
//! carries caveats; a chain of BLAKE3 keyed MACs, one link per caveat, ties
//! them to a root key.
//!
//! This module owns the token and the pure MAC chain ([`seal`],
//! [`attenuate`], [`verify_chain`]). The keystore adds custody of the root key
//! and revocation. [`attenuate`] deliberately needs neither.
//!
//! A verified token grants nothing by itself. It only proves that it is
//! genuine and that its caveats hold; whoever unsealed it then decides what
//! live capability to mint.

use vstd::prelude::*;

use crate::bytes::{be_bytes, le_bytes, u64_to_be};
use crate::hash::{blake3_keyed_hash, MacKey};
use crate::kernel::Rights;

verus! {

pub const IDENTIFIER_LEN: usize = 16;

/// How many caveats a token can carry.
pub const MAX_CAVEATS: usize = 4;

/// Tag byte and the largest payload that any caveat needs. Every caveat
/// encodes to exactly this many bytes, so there is no framing to get wrong.
pub const ENCODED_CAVEAT_LEN: usize = 9;

/// A restriction that whoever unseals a token checks on the spot.
#[derive(Clone, Copy, PartialEq, Eq, Debug, Structural)]
pub enum Caveat {
    /// The rights asked for must be within these.
    RightsSubset(Rights),
    /// The last moment, on the clock of whoever checks, at which the token
    /// is good.
    ExpiresAt(u64),
}

impl Caveat {
    /// The bytes that stand for this caveat in the MAC chain.
    pub open spec fn encoding(self) -> Seq<u8> {
        match self {
            Caveat::RightsSubset(rights) => seq![0u8, rights.0, 0, 0, 0, 0, 0, 0, 0],
            Caveat::ExpiresAt(timestamp) => seq![1u8] + be_bytes(timestamp as nat, 8),
        }
    }

    /// Whether a request for `rights` at time `now` satisfies this caveat.
    /// Without a clock no expiry is satisfied.
    pub open spec fn satisfied(self, now: Option<u64>, rights: Rights) -> bool {
        match self {
            Caveat::RightsSubset(allowed) => rights.within(allowed),
            Caveat::ExpiresAt(expiry) => now matches Some(t) && t <= expiry,
        }
    }

    /// The bytes that stand for this caveat in the MAC chain.
    pub fn encode(&self) -> (buf: [u8; ENCODED_CAVEAT_LEN])
        ensures
            buf@ == self.encoding(),
            match self {
                Caveat::RightsSubset(rights) => {
                    &&& buf@[0] == 0
                    &&& buf@[1] == rights.0
                    &&& forall|i: int| 2 <= i < 9 ==> buf@[i] == 0
                },
                Caveat::ExpiresAt(timestamp) => {
                    &&& buf@[0] == 1
                    &&& buf@.skip(1) == be_bytes(*timestamp as nat, 8)
                },
            },
    {
        match self {
            Caveat::RightsSubset(rights) => {
                let buf: [u8; ENCODED_CAVEAT_LEN] = [0, rights.bits(), 0, 0, 0, 0, 0, 0, 0];
                proof {
                    assert(buf@ =~= self.encoding());
                }
                buf
            },
            Caveat::ExpiresAt(timestamp) => {
                let t: [u8; 8] = u64_to_be(*timestamp);
                let buf: [u8; ENCODED_CAVEAT_LEN] = [
                    1,
                    t[0],
                    t[1],
                    t[2],
                    t[3],
                    t[4],
                    t[5],
                    t[6],
                    t[7],
                ];
                proof {
                    assert(buf@ =~= self.encoding());
                    assert(buf@.skip(1) =~= be_bytes(*timestamp as nat, 8));
                }
                buf
            },
        }
    }

    fn check(&self, now: Option<u64>, rights: Rights) -> (ok: bool)
        ensures
            ok == self.satisfied(now, rights),
            ok == match self {
                Caveat::RightsSubset(allowed) => rights.0 & !allowed.0 == 0,
                Caveat::ExpiresAt(expiry) => now is Some && now->0 <= *expiry,
            },
    {
        match self {
            Caveat::RightsSubset(allowed) => rights.is_subset_of(*allowed),
            Caveat::ExpiresAt(expiry) => match now {
                Some(t) => t <= *expiry,
                None => false,
            },
        }
    }
}

/// More caveats than a token can carry.
#[derive(Clone, Copy, PartialEq, Eq, Debug, Structural)]
pub struct SealedError;

/// What a token says: whom it designates, under which caveats, and the MAC
/// that vouches for both.
pub struct TokenView {
    pub identifier: Seq<u8>,
    pub caveats: Seq<Caveat>,
    pub mac: Seq<u8>,
}

/// The MAC at the end of the chain: the root key's MAC of the identifier, then
/// one link per caveat, each keyed by the MAC before it.
pub open spec fn chain(root: Seq<u8>, identifier: Seq<u8>, caveats: Seq<Caveat>) -> Seq<u8>
    decreases caveats.len(),
{
    if caveats.len() == 0 {
        blake3_keyed_hash(root, identifier)
    } else {
        blake3_keyed_hash(
            chain(root, identifier, caveats.drop_last()),
            caveats.last().encoding(),
        )
    }
}

impl TokenView {
    /// Whether the token's MAC is the end of the chain that its root key
    /// starts.
    pub open spec fn genuine(self, root: Seq<u8>) -> bool {
        self.mac == chain(root, self.identifier, self.caveats)
    }

    /// Whether a request for `rights` at time `now` satisfies every caveat.
    pub open spec fn admits(self, now: Option<u64>, rights: Rights) -> bool {
        forall|i: int|
            0 <= i < self.caveats.len() ==> (#[trigger] self.caveats[i]).satisfied(now, rights)
    }

    /// The token with one more caveat, chained on from its own MAC.
    pub open spec fn attenuated(self, caveat: Caveat) -> TokenView {
        TokenView {
            identifier: self.identifier,
            caveats: self.caveats.push(caveat),
            mac: blake3_keyed_hash(self.mac, caveat.encoding()),
        }
    }
}

/// The token that `root` issues for `identifier` under `caveats`.
pub open spec fn root_token(
    root: Seq<u8>,
    identifier: Seq<u8>,
    caveats: Seq<Caveat>,
) -> TokenView {
    TokenView { identifier, caveats, mac: chain(root, identifier, caveats) }
}

/// A macaroon-style sealed capability: plain bytes of fixed size.
#[derive(Clone, Copy, PartialEq, Eq, Debug)]
pub struct SealedToken {
    identifier: [u8; IDENTIFIER_LEN],
    caveat_count: u8,
    caveats: [Option<Caveat>; MAX_CAVEATS],
    mac: crate::hash::Hash,
}

impl View for SealedToken {
    type V = TokenView;

    closed spec fn view(&self) -> TokenView {
        TokenView {
            identifier: self.identifier@,
            caveats: Seq::new(self.caveat_count as nat, |i: int| self.caveats@[i]->0),
            mac: self.mac@,
        }
    }
}

impl SealedToken {
    /// The slots below the count are filled, the others are not.
    #[verifier::type_invariant]
    spec fn filled_to_count(&self) -> bool {
        &&& self.caveat_count <= MAX_CAVEATS
        &&& forall|i: int|
            0 <= i < MAX_CAVEATS ==> (#[trigger] self.caveats@[i] is Some <==> i
                < self.caveat_count)
    }

    /// Reassembles a token from what travelled with it. Nothing is verified
    /// here; [`verify_chain`] does that.
    pub fn from_parts(
        identifier: [u8; IDENTIFIER_LEN],
        caveats: &[Caveat],
        mac: crate::hash::Hash,
    ) -> (token: Result<SealedToken, SealedError>)
        ensures
            token is Ok <==> caveats@.len() <= MAX_CAVEATS,
            token is Ok <==> caveats@.len() <= 4,
            token matches Ok(t) ==> t@ == (TokenView {
                identifier: identifier@,
                caveats: caveats@,
                mac: mac@,
            }),
    {
        let n: usize = caveats.len();
        if n > MAX_CAVEATS {
            return Err(SealedError);
        }
        let mut stored: [Option<Caveat>; MAX_CAVEATS] = [None;MAX_CAVEATS];
        let mut i: usize = 0;
        while i < n
            invariant
                i <= n <= MAX_CAVEATS,
                n == caveats@.len(),
                forall|j: int| 0 <= j < i ==> #[trigger] stored@[j] == Some(caveats@[j]),
                forall|j: int| i <= j < MAX_CAVEATS ==> #[trigger] stored@[j] is None,
            decreases n - i,
        {
            stored[i] = Some(caveats[i]);
            i = i + 1;
        }
        let token = SealedToken { identifier, caveat_count: n as u8, caveats: stored, mac };
        proof {
            assert(token@.caveats =~= caveats@);
        }
        Ok(token)
    }

    pub fn identifier(&self) -> (identifier: &[u8; IDENTIFIER_LEN])
        ensures
            identifier@ == self@.identifier,
    {
        &self.identifier
    }

    /// The caveats, in the order they were added. Every entry is filled.
    pub fn caveats(&self) -> (caveats: &[Option<Caveat>])
        ensures
            caveats@ == self@.caveats.map_values(|c: Caveat| Some(c)),
    {
        proof {
            use_type_invariant(self);
        }
        let filled = vstd::slice::slice_subrange(
            self.caveats.as_slice(),
            0,
            self.caveat_count as usize,
        );
        proof {
            assert(filled@ =~= self@.caveats.map_values(|c: Caveat| Some(c)));
        }
        filled
    }

    /// The MAC at the end of the token's chain.
    pub fn mac(&self) -> (mac: &crate::hash::Hash)
        ensures
            mac@ == self@.mac,
    {
        &self.mac
    }
}

/// Extends a chain by one link: the MAC so far becomes the key for `caveat`.
fn link(mac: &crate::hash::Hash, caveat: &Caveat) -> (next: crate::hash::Hash)
    ensures
        next@ == blake3_keyed_hash(mac@, caveat.encoding()),
{
    MacKey::from_bytes(*mac.as_bytes()).compute(&caveat.encode())
}

/// Issues a fresh root token. The root key never appears in it, only its
/// effect, the final MAC.
pub fn seal(root_key: &MacKey, identifier: [u8; IDENTIFIER_LEN], caveats: &[Caveat]) -> (token:
    Result<SealedToken, SealedError>)
    ensures
        token is Ok <==> caveats@.len() <= MAX_CAVEATS,
        token is Ok <==> caveats@.len() <= 4,
        token matches Ok(t) ==> t@ == root_token(root_key@, identifier@, caveats@),
        token matches Ok(t) ==> t@.identifier == identifier@ && t@.caveats == caveats@,
        token matches Ok(t) ==> t@.mac == if caveats@.len() == 0 {
            blake3_keyed_hash(root_key@, identifier@)
        } else {
            blake3_keyed_hash(
                chain(root_key@, identifier@, caveats@.drop_last()),
                caveats@.last().encoding(),
            )
        },
{
    let n: usize = caveats.len();
    if n > MAX_CAVEATS {
        return Err(SealedError);
    }
    let mut mac = root_key.compute(&identifier);
    let mut i: usize = 0;
    proof {
        assert(caveats@.take(0).len() == 0);
    }
    while i < n
        invariant
            i <= n,
            n == caveats@.len(),
            mac@ == chain(root_key@, identifier@, caveats@.take(i as int)),
        decreases n - i,
    {
        mac = link(&mac, &caveats[i]);
        proof {
            let longer = caveats@.take(i + 1);
            assert(longer.drop_last() =~= caveats@.take(i as int));
        }
        i = i + 1;
    }
    proof {
        assert(caveats@.take(n as int) =~= caveats@);
    }
    SealedToken::from_parts(identifier, caveats, mac)
}

/// Appends `caveat` and chains the MAC on from the token's own, with no root
/// key. The holder has the last MAC of the chain, which is just the key that
/// the next link needs, but none of the earlier ones; so a caveat can be
/// added, never taken away.
pub fn attenuate(token: &SealedToken, caveat: Caveat) -> (narrowed: Result<
    SealedToken,
    SealedError,
>)
    ensures
        narrowed is Ok <==> token@.caveats.len() < MAX_CAVEATS,
        narrowed is Ok <==> token@.caveats.len() < 4,
        narrowed matches Ok(t) ==> t@ == token@.attenuated(caveat),
        narrowed matches Ok(t) ==> {
            &&& t@.identifier == token@.identifier
            &&& t@.caveats == token@.caveats.push(caveat)
            &&& t@.mac == blake3_keyed_hash(token@.mac, caveat.encoding())
        },
{
    proof {
        use_type_invariant(token);
    }
    let n: usize = token.caveat_count as usize;
    if n >= MAX_CAVEATS {
        return Err(SealedError);
    }
    let mac = link(&token.mac, &caveat);
    let mut caveats = token.caveats;
    caveats[n] = Some(caveat);
    let narrowed = SealedToken {
        identifier: token.identifier,
        caveat_count: token.caveat_count + 1,
        caveats,
        mac,
    };
    proof {
        assert(narrowed@.caveats =~= token@.caveats.push(caveat));
    }
    Ok(narrowed)
}

/// Recomputes the MAC chain from `root_key` through every caveat that `token`
/// carries and compares its end, in constant time, with the token's own MAC.
/// Whether the caveats are satisfied is another question
/// ([`caveats_satisfied`]).
pub fn verify_chain(root_key: &MacKey, token: &SealedToken) -> (genuine: bool)
    ensures
        genuine == token@.genuine(root_key@),
        genuine == (token@.mac == chain(root_key@, token@.identifier, token@.caveats)),
{
    let caveats = token.caveats();
    let n: usize = caveats.len();
    let ghost plain = token@.caveats;
    let mut mac = root_key.compute(&token.identifier);
    let mut i: usize = 0;
    proof {
        assert(plain.take(0).len() == 0);
    }
    while i < n
        invariant
            i <= n,
            n == caveats@.len(),
            plain.len() == n,
            caveats@ == plain.map_values(|c: Caveat| Some(c)),
            mac@ == chain(root_key@, token@.identifier, plain.take(i as int)),
        decreases n - i,
    {
        match &caveats[i] {
            Some(caveat) => {
                mac = link(&mac, caveat);
                proof {
                    let longer = plain.take(i + 1);
                    assert(longer.drop_last() =~= plain.take(i as int));
                    assert(caveats@[i as int] == Some(plain[i as int]));
                }
            },
            None => {
                proof {
                    assert(caveats@[i as int] == Some(plain[i as int]));
                }
                return false;
            },
        }
        i = i + 1;
    }
    proof {
        assert(plain.take(n as int) =~= plain);
    }
    mac.ct_eq(&token.mac)
}

/// Whether a request for `requested_rights` at time `now` satisfies every
/// caveat of `token`.
pub fn caveats_satisfied(token: &SealedToken, now: Option<u64>, requested_rights: Rights) -> (ok:
    bool)
    ensures
        ok == token@.admits(now, requested_rights),
        ok <==> forall|i: int|
            0 <= i < token@.caveats.len() ==> match #[trigger] token@.caveats[i] {
                Caveat::RightsSubset(allowed) => requested_rights.0 & !allowed.0 == 0,
                Caveat::ExpiresAt(expiry) => now is Some && now->0 <= expiry,
            },
{
    let caveats = token.caveats();
    let n: usize = caveats.len();
    let ghost plain = token@.caveats;
    let mut i: usize = 0;
    while i < n
        invariant
            i <= n,
            n == caveats@.len(),
            plain.len() == n,
            plain == token@.caveats,
            caveats@ == plain.map_values(|c: Caveat| Some(c)),
            forall|j: int|
                0 <= j < i ==> (#[trigger] plain[j]).satisfied(now, requested_rights),
        decreases n - i,
    {
        proof {
            assert(caveats@[i as int] == Some(plain[i as int]));
        }
        let ok: bool = match &caveats[i] {
            Some(caveat) => caveat.check(now, requested_rights),
            None => false,
        };
        if !ok {
            return false;
        }
        i = i + 1;
    }
    true
}

/// Two caveats with the same encoding are the same caveat: the chain tells
/// any two apart, and a rewritten caveat feeds other bytes to its link.
pub proof fn encoding_is_injective(a: Caveat, b: Caveat)
    ensures
        a.encoding() == b.encoding() <==> a == b,
{
    if a.encoding() == b.encoding() {
        equal_encodings_mean_equal_caveats(a, b);
    }
}

proof fn equal_encodings_mean_equal_caveats(a: Caveat, b: Caveat)
    requires
        a.encoding() == b.encoding(),
    ensures
        a == b,
{
    match (a, b) {
        (Caveat::RightsSubset(r), Caveat::RightsSubset(s)) => {
            assert(a.encoding()[1] == r.0);
            assert(b.encoding()[1] == s.0);
        },
        (Caveat::ExpiresAt(t), Caveat::ExpiresAt(u)) => {
            let (x, y) = (t as nat, u as nat);
            assert(be_bytes(x, 8) =~= a.encoding().drop_first());
            assert(be_bytes(y, 8) =~= b.encoding().drop_first());
            assert(le_bytes(x, 8) =~= be_bytes(x, 8).reverse());
            assert(le_bytes(y, 8) =~= be_bytes(y, 8).reverse());
            reveal_with_fuel(crate::bytes::byte_span, 9);
            crate::bytes::le_bytes_injective(x, y, 8);
        },
        _ => {
            assert(a.encoding()[0] != b.encoding()[0]);
        },
    }
}

/// Every caveat encodes to the same number of bytes.
pub proof fn encoding_has_fixed_length(c: Caveat)
    ensures
        c.encoding().len() == ENCODED_CAVEAT_LEN,
{
    if let Caveat::ExpiresAt(t) = c {
        crate::bytes::le_bytes_len(t as nat, 8);
    }
}

/// A freshly sealed token verifies against its root key.
pub proof fn sealed_tokens_are_genuine(
    root: Seq<u8>,
    identifier: Seq<u8>,
    caveats: Seq<Caveat>,
)
    ensures
        root_token(root, identifier, caveats).genuine(root),
{
}

/// Attenuation needs no root key, and what it makes of a genuine token is
/// genuine under the same root key.
pub proof fn attenuation_keeps_genuine(root: Seq<u8>, token: TokenView, caveat: Caveat)
    requires
        token.genuine(root),
    ensures
        token.attenuated(caveat).genuine(root),
        token.attenuated(caveat).identifier == token.identifier,
{
    assert(token.attenuated(caveat).caveats.drop_last() =~= token.caveats);
}

/// Attenuating a root token gives the very token that the root key would have
/// issued with the caveat among the initial ones.
pub proof fn attenuation_is_sealing_with_one_more(
    root: Seq<u8>,
    identifier: Seq<u8>,
    caveats: Seq<Caveat>,
    caveat: Caveat,
)
    ensures
        root_token(root, identifier, caveats).attenuated(caveat) == root_token(
            root,
            identifier,
            caveats.push(caveat),
        ),
{
    assert(caveats.push(caveat).drop_last() =~= caveats);
}

/// Attenuation only narrows: whatever request the narrowed token admits, the
/// token admitted before, and the added caveat holds of it.
pub proof fn attenuation_only_narrows(
    token: TokenView,
    caveat: Caveat,
    now: Option<u64>,
    rights: Rights,
)
    ensures
        token.attenuated(caveat).admits(now, rights) <==> token.admits(now, rights)
            && caveat.satisfied(now, rights),
{
    let narrowed = token.attenuated(caveat);
    if narrowed.admits(now, rights) {
        assert forall|i: int| 0 <= i < token.caveats.len() implies (
        #[trigger] token.caveats[i]).satisfied(now, rights) by {
            assert(narrowed.caveats[i] == token.caveats[i]);
        }
        assert(narrowed.caveats[token.caveats.len() as int] == caveat);
    }
}

/// Asking for less is never worse: a request that a token admits is still
/// admitted with fewer rights, or at an earlier time.
pub proof fn admitting_is_monotone(
    token: TokenView,
    now: Option<u64>,
    earlier: Option<u64>,
    rights: Rights,
    fewer: Rights,
)
    requires
        token.admits(now, rights),
        fewer.within(rights),
        now is Some ==> earlier is Some && earlier->0 <= now->0,
    ensures
        token.admits(earlier, fewer),
{
    assert forall|i: int| 0 <= i < token.caveats.len() implies (
    #[trigger] token.caveats[i]).satisfied(earlier, fewer) by {
        assert(token.caveats[i].satisfied(now, rights));
        if let Caveat::RightsSubset(allowed) = token.caveats[i] {
            crate::kernel::rights_within_is_a_preorder(fewer, rights, allowed);
        }
    }
}

/// A token with an expiry admits nothing without a clock, and nothing after
/// the expiry.
pub proof fn expiry_is_enforced(
    token: TokenView,
    at: int,
    expiry: u64,
    now: Option<u64>,
    rights: Rights,
)
    requires
        0 <= at < token.caveats.len(),
        token.caveats[at] == Caveat::ExpiresAt(expiry),
        now matches Some(t) ==> t > expiry,
    ensures
        !token.admits(now, rights),
{
    assert(!token.caveats[at].satisfied(now, rights));
}

/// A token admits a request just where every caveat holds of it: the rights
/// asked for are all among those a rights caveat lists, and there is a clock
/// that has not passed the expiry.
pub proof fn a_token_admits_what_every_caveat_allows(
    token: TokenView,
    now: Option<u64>,
    rights: Rights,
)
    ensures
        token.admits(now, rights) <==> forall|i: int|
            0 <= i < token.caveats.len() ==> match #[trigger] token.caveats[i] {
                Caveat::RightsSubset(allowed) => rights.0 & !allowed.0 == 0,
                Caveat::ExpiresAt(expiry) => now is Some && now->0 <= expiry,
            },
{
    if token.admits(now, rights) {
        assert forall|i: int| 0 <= i < token.caveats.len() implies match #[trigger]
        token.caveats[i] {
            Caveat::RightsSubset(allowed) => rights.0 & !allowed.0 == 0,
            Caveat::ExpiresAt(expiry) => now is Some && now->0 <= expiry,
        } by {
            assert(token.caveats[i].satisfied(now, rights));
        }
    }
}

/// A rights caveat is enforced bit by bit: a token admits no request for a bit
/// that one of its rights caveats lacks.
pub proof fn rights_caveats_are_enforced(
    token: TokenView,
    at: int,
    allowed: Rights,
    now: Option<u64>,
    requested: Rights,
    bit: u8,
)
    requires
        0 <= at < token.caveats.len(),
        token.caveats[at] == Caveat::RightsSubset(allowed),
        requested.0 & bit != 0,
        allowed.0 & bit == 0,
    ensures
        !token.admits(now, requested),
{
    let (r, a) = (requested.0, allowed.0);
    assert(r & bit != 0 && a & bit == 0 ==> r & !a != 0) by (bit_vector);
    assert(!token.caveats[at].satisfied(now, requested));
}

/// A token with one caveat admits just what that caveat allows, and one with
/// none admits everything.
pub proof fn a_lone_caveat_allows_what_it_says(
    token: TokenView,
    allowed: Rights,
    expiry: u64,
    now: Option<u64>,
    requested: Rights,
)
    ensures
        token.caveats == seq![Caveat::RightsSubset(allowed)] ==> (token.admits(now, requested)
            <==> requested.0 & !allowed.0 == 0),
        token.caveats == seq![Caveat::ExpiresAt(expiry)] ==> (token.admits(now, requested)
            <==> now is Some && now->0 <= expiry),
        token.caveats.len() == 0 ==> token.admits(now, requested),
{
    if token.caveats.len() > 0 {
        assert(token.admits(now, requested) ==> token.caveats[0].satisfied(now, requested));
    }
}

/// A rights caveat is encoded as a zero, the rights and seven zeros; an expiry as
/// a one and the time in eight bytes, most significant first.
pub proof fn encodings_are_these_bytes(caveat: Caveat)
    ensures
        caveat.encoding().len() == 9,
        caveat matches Caveat::RightsSubset(rights) ==> {
            &&& caveat.encoding()[0] == 0
            &&& caveat.encoding()[1] == rights.0
            &&& forall|i: int| 2 <= i < 9 ==> caveat.encoding()[i] == 0
        },
        caveat matches Caveat::ExpiresAt(t) ==> {
            let e = caveat.encoding();
            &&& e[0] == 1
            &&& t == 0x100_0000_0000_0000 * e[1] as int + 0x1_0000_0000_0000 * e[2] as int
                + 0x100_0000_0000 * e[3] as int + 0x1_0000_0000 * e[4] as int + 0x100_0000
                * e[5] as int + 0x1_0000 * e[6] as int + 0x100 * e[7] as int + e[8] as int
        },
{
    encoding_has_fixed_length(caveat);
    if let Caveat::ExpiresAt(t) = caveat {
        crate::bytes::be_bytes_add_up(t);
        let s = be_bytes(t as nat, 8);
        assert(forall|i: int| 0 <= i < 8 ==> caveat.encoding()[i + 1] == s[i]);
    }
}

/// Every caveat gets its link: the MAC with one more caveat is the keyed hash of
/// that caveat's bytes, keyed by the MAC without it, and the MAC with none is
/// the root key's keyed hash of the identifier. Sealing, attenuating and
/// verifying all go by it.
pub proof fn every_caveat_gets_its_link(
    root: Seq<u8>,
    identifier: Seq<u8>,
    caveats: Seq<Caveat>,
    caveat: Caveat,
    token: TokenView,
)
    ensures
        root_token(root, identifier, Seq::empty()).mac == blake3_keyed_hash(root, identifier),
        root_token(root, identifier, caveats.push(caveat)).mac == blake3_keyed_hash(
            root_token(root, identifier, caveats).mac,
            caveat.encoding(),
        ),
        root_token(root, identifier, caveats).identifier == identifier,
        root_token(root, identifier, caveats).caveats == caveats,
        token.attenuated(caveat).mac == blake3_keyed_hash(token.mac, caveat.encoding()),
        token.attenuated(caveat).identifier == token.identifier,
        token.attenuated(caveat).caveats == token.caveats.push(caveat),
        token.genuine(root) <==> token.mac == root_token(
            root,
            token.identifier,
            token.caveats,
        ).mac,
{
    assert(caveats.push(caveat).drop_last() =~= caveats);
}

/// Whether two chains over as many caveats collide nowhere: wherever two links
/// come out at the same MAC, they were made with the same key from the same
/// bytes.
pub open spec fn chains_do_not_collide(
    root: Seq<u8>,
    identifier: Seq<u8>,
    caveats: Seq<Caveat>,
    other_root: Seq<u8>,
    other_identifier: Seq<u8>,
    others: Seq<Caveat>,
) -> bool {
    &&& blake3_keyed_hash(root, identifier) == blake3_keyed_hash(other_root, other_identifier)
        ==> root == other_root && identifier == other_identifier
    &&& forall|n: int|
        0 <= n < caveats.len() && n < others.len() ==> {
            let (k, l) = (
                chain(root, identifier, #[trigger] caveats.take(n)),
                chain(other_root, other_identifier, others.take(n)),
            );
            let (c, d) = (caveats[n].encoding(), others[n].encoding());
            blake3_keyed_hash(k, c) == blake3_keyed_hash(l, d) ==> k == l && c == d
        }
}

/// No caveat can be changed: where the keyed hash does not collide, two genuine
/// tokens with the same MAC and as many caveats carry the same caveats under the
/// same identifier and root key.
pub proof fn the_mac_vouches_for_every_caveat(
    root: Seq<u8>,
    other_root: Seq<u8>,
    token: TokenView,
    other: TokenView,
)
    requires
        token.genuine(root),
        other.genuine(other_root),
        token.caveats.len() == other.caveats.len(),
        token.mac == other.mac,
        chains_do_not_collide(
            root,
            token.identifier,
            token.caveats,
            other_root,
            other.identifier,
            other.caveats,
        ),
    ensures
        root == other_root,
        token.identifier == other.identifier,
        token.caveats == other.caveats,
    decreases token.caveats.len(),
{
    let n = token.caveats.len() as int;
    if n == 0 {
        assert(token.caveats =~= other.caveats);
    } else {
        let (c, d) = (token.caveats.drop_last(), other.caveats.drop_last());
        assert(c =~= token.caveats.take(n - 1));
        assert(d =~= other.caveats.take(n - 1));
        assert(token.caveats.last() == token.caveats[n - 1]);
        assert(other.caveats.last() == other.caveats[n - 1]);
        encoding_is_injective(token.caveats[n - 1], other.caveats[n - 1]);
        assert forall|m: int| 0 <= m < c.len() && m < d.len() implies {
            let (k, l) = (
                chain(root, token.identifier, #[trigger] c.take(m)),
                chain(other_root, other.identifier, d.take(m)),
            );
            let (e, f) = (c[m].encoding(), d[m].encoding());
            blake3_keyed_hash(k, e) == blake3_keyed_hash(l, f) ==> k == l && e == f
        } by {
            assert(c.take(m) =~= token.caveats.take(m));
            assert(d.take(m) =~= other.caveats.take(m));
        }
        the_mac_vouches_for_every_caveat(
            root,
            other_root,
            root_token(root, token.identifier, c),
            root_token(other_root, other.identifier, d),
        );
        assert(token.caveats =~= c.push(token.caveats[n - 1]));
        assert(other.caveats =~= d.push(other.caveats[n - 1]));
    }
}

/// The sizes of a token.
pub proof fn a_token_has_these_sizes()
    ensures
        IDENTIFIER_LEN == 16,
        MAX_CAVEATS == 4,
        ENCODED_CAVEAT_LEN == 9,
{
}

} // verus!
