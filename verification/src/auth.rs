//! Identities: the secret unique identity, its one-way hash, and the
//! authority-encrypted shareable envelope.

use vstd::prelude::*;
use vstd::string::StringSliceAdditionalSpecFns;
use crate::crypto::{pk_of, seal, unseal, unsealed_of, PublicKey, SecretKey};
use crate::utils::{b64_decode, from_text_str, lemma_text_round_trip, text_of, to_text_string};

verus! {

// Name for the 32-byte digest that pbkdf2's PBKDF2-HMAC-SHA256 derives from an
// input under the fixed application-wide salt and iteration count; the digest
// is a function of the input bytes alone.
pub uninterp spec fn kdf_of(input: Seq<u8>) -> Seq<u8>;

/// Just the unique ID detached from the authentication.
///
/// A device's durable secret identifier: 16 random bytes, never transmitted
/// except to the authority on a positive test.
#[derive(Debug)]
pub struct UniqueIdentity {
    bytes: Vec<u8>,
}

/// A hashed identity is a derived version of the real identity.
///
/// It is derived via PBKDF2-HMAC-SHA256 over the unique identity's raw bytes
/// with a fixed application-wide salt, and can be freely shared with
/// authorities for polling purposes; it cannot be inverted.
#[derive(Debug)]
pub struct HashedIdentity {
    bytes: Vec<u8>,
}

/// An identity that can be shared with others.
///
/// An encrypted envelope around the unique identity, sent to other devices.
/// Only the central authority's secret key can decode the contained identity,
/// and fresh randomness at each sealing makes envelopes unlinkable.
#[derive(Debug)]
pub struct ShareIdentity {
    bytes: Vec<u8>,
}

/// Represents the unique identity of a person with auth info.
///
/// Kept private on the device; the cached hashed identity always agrees with
/// the unique identity, and is recomputed, never trusted, when an identity is
/// rebuilt from its unique part.
#[derive(Debug)]
pub struct Identity {
    unique_id: UniqueIdentity,
    hashed_id: HashedIdentity,
}

/// Error when an identity cannot be parsed.
#[derive(Clone, Copy, Debug)]
pub struct ParseIdentityError;

/// Error when a hashed identity cannot be parsed.
#[derive(Clone, Copy, Debug)]
pub struct ParseHashedIdentityError;

impl View for UniqueIdentity {
    type V = Seq<u8>;

    closed spec fn view(&self) -> Seq<u8> {
        self.bytes@
    }
}

impl View for HashedIdentity {
    type V = Seq<u8>;

    closed spec fn view(&self) -> Seq<u8> {
        self.bytes@
    }
}

impl View for ShareIdentity {
    type V = Seq<u8>;

    closed spec fn view(&self) -> Seq<u8> {
        self.bytes@
    }
}

impl View for Identity {
    type V = (Seq<u8>, Seq<u8>);

    closed spec fn view(&self) -> (Seq<u8>, Seq<u8>) {
        (self.unique_id@, self.hashed_id@)
    }
}

/// Relies on `uuid::Uuid::new_v4`: a fresh random 16-byte (version 4 UUID)
/// identifier.  The value is random, so only its length is promised.
#[verifier::external_body]
fn fresh_unique_bytes() -> (r: Vec<u8>)
    ensures
        r@.len() == 16,
{
    uuid::Uuid::new_v4().as_bytes().to_vec()
}

/// Relies on `pbkdf2::pbkdf2_hmac::<sha2::Sha256>` over the input with the
/// fixed application-wide salt and 50000 iterations: a 32-byte digest that is
/// a function of the input bytes alone.
#[verifier::external_body]
fn kdf_bytes(input: &Vec<u8>) -> (r: Vec<u8>)
    ensures
        r@.len() == 32,
        r@ == kdf_of(input@),
{
    let mut out = [0u8; 32];
    pbkdf2::pbkdf2_hmac::<sha2::Sha256>(
        input,
        b"nX\xdfu\x1au=\xd7\xe3d.\x1c\xb2\x11P\x0b",
        50000,
        &mut out,
    );
    out.to_vec()
}

/// What revealing an envelope under a secret key yields: the unsealed bytes,
/// if they form a 16-byte unique identity; otherwise nothing, whether the
/// opening or the shape failed.
pub open spec fn reveal_spec(envelope: Seq<u8>, secret_key: Seq<u8>) -> Option<Seq<u8>> {
    match unsealed_of(envelope, secret_key) {
        Some(pt) => if pt.len() == 16 {
            Some(pt)
        } else {
            None
        },
        None => None,
    }
}

/// What parsing identity text yields: the decoded bytes, if they form a
/// 16-byte unique identity.
pub open spec fn id_parse(t: Seq<u8>) -> Option<Seq<u8>> {
    match b64_decode(t) {
        Some(b) => if b.len() == 16 {
            Some(b)
        } else {
            None
        },
        None => None,
    }
}

/// What parsing hashed-identity text yields: the decoded bytes, if they form
/// a 32-byte digest.
pub open spec fn hashed_parse(t: Seq<u8>) -> Option<Seq<u8>> {
    match b64_decode(t) {
        Some(b) => if b.len() == 32 {
            Some(b)
        } else {
            None
        },
        None => None,
    }
}

impl UniqueIdentity {
    /// A well-formed unique identity holds exactly 16 bytes.
    pub open spec fn wf(&self) -> bool {
        self@.len() == 16
    }

    /// Creates a new unique identity.
    pub fn unique() -> (r: UniqueIdentity)
        ensures
            r.wf(),
    {
        UniqueIdentity { bytes: fresh_unique_bytes() }
    }

    /// Hashes this unique identity.
    pub fn hash(&self) -> (r: HashedIdentity)
        ensures
            r.wf(),
            r@ == kdf_of(self@),
    {
        HashedIdentity { bytes: kdf_bytes(&self.bytes) }
    }

    /// Returns the raw identifier bytes.
    pub fn as_bytes(&self) -> (r: &Vec<u8>)
        ensures
            r@ == self@,
    {
        &self.bytes
    }

    /// Rebuilds a unique identity from its raw bytes, as stored or received;
    /// anything but exactly 16 bytes is rejected.
    pub fn from_bytes(bytes: Vec<u8>) -> (r: Result<UniqueIdentity, ParseIdentityError>)
        ensures
            match r {
                Ok(u) => u.wf() && u@ == bytes@,
                Err(_) => bytes@.len() != 16,
            },
            bytes@.len() == 16 ==> r is Ok,
    {
        if bytes.len() == 16 {
            Ok(UniqueIdentity { bytes })
        } else {
            Err(ParseIdentityError)
        }
    }
}

impl Clone for UniqueIdentity {
    fn clone(&self) -> (r: Self)
        ensures
            r@ == self@,
    {
        UniqueIdentity { bytes: self.bytes.clone() }
    }
}

impl PartialEq for UniqueIdentity {
    fn eq(&self, other: &Self) -> (r: bool) {
        let r = self.bytes == other.bytes;
        proof {
            if r {
                assert(self.bytes@ =~= other.bytes@);
            }
        }
        r
    }
}

impl vstd::std_specs::cmp::PartialEqSpecImpl for UniqueIdentity {
    open spec fn obeys_eq_spec() -> bool {
        true
    }

    open spec fn eq_spec(&self, other: &Self) -> bool {
        self@ == other@
    }
}

impl HashedIdentity {
    /// A well-formed hashed identity holds exactly 32 bytes.
    pub open spec fn wf(&self) -> bool {
        self@.len() == 32
    }

    /// Returns the raw digest bytes.
    pub fn as_bytes(&self) -> (r: &Vec<u8>)
        ensures
            r@ == self@,
    {
        &self.bytes
    }

    /// Rebuilds a hashed identity from its raw bytes, as stored or received;
    /// anything but exactly 32 bytes is rejected.
    pub fn from_bytes(bytes: Vec<u8>) -> (r: Result<HashedIdentity, ParseHashedIdentityError>)
        ensures
            match r {
                Ok(h) => h.wf() && h@ == bytes@,
                Err(_) => bytes@.len() != 32,
            },
            bytes@.len() == 32 ==> r is Ok,
    {
        if bytes.len() == 32 {
            Ok(HashedIdentity { bytes })
        } else {
            Err(ParseHashedIdentityError)
        }
    }

    /// The textual (base64) form of the hashed identity.
    pub fn to_text(&self) -> (r: String)
        ensures
            r@ == text_of(self@),
    {
        to_text_string(&self.bytes)
    }

    /// Parses the textual form of a hashed identity.
    pub fn parse_text(text: &str) -> (r: Result<HashedIdentity, ParseHashedIdentityError>)
        ensures
            match r {
                Ok(h) => h.wf() && hashed_parse(text.spec_bytes()) == Some(h@),
                Err(_) => hashed_parse(text.spec_bytes()) is None,
            },
    {
        match from_text_str(text) {
            Some(b) => if b.len() == 32 {
                Ok(HashedIdentity { bytes: b })
            } else {
                Err(ParseHashedIdentityError)
            },
            None => Err(ParseHashedIdentityError),
        }
    }
}

impl Clone for HashedIdentity {
    fn clone(&self) -> (r: Self)
        ensures
            r@ == self@,
    {
        HashedIdentity { bytes: self.bytes.clone() }
    }
}

impl PartialEq for HashedIdentity {
    fn eq(&self, other: &Self) -> (r: bool) {
        let r = self.bytes == other.bytes;
        proof {
            if r {
                assert(self.bytes@ =~= other.bytes@);
            }
        }
        r
    }
}

impl vstd::std_specs::cmp::PartialEqSpecImpl for HashedIdentity {
    open spec fn obeys_eq_spec() -> bool {
        true
    }

    open spec fn eq_spec(&self, other: &Self) -> bool {
        self@ == other@
    }
}

impl ShareIdentity {
    /// Reveals the unique identity behind a shared identity.
    ///
    /// Yields nothing if the envelope does not open under the key or does not
    /// hold a well-formed unique identity; the two failures are deliberately
    /// indistinguishable.
    pub fn reveal_identity(&self, secret_key: &SecretKey) -> (r: Option<UniqueIdentity>)
        requires
            secret_key.wf(),
        ensures
            match r {
                Some(u) => u.wf() && reveal_spec(self@, secret_key@) == Some(u@),
                None => reveal_spec(self@, secret_key@) is None,
            },
    {
        match unseal(&self.bytes, secret_key) {
            Some(pt) => if pt.len() == 16 {
                Some(UniqueIdentity { bytes: pt })
            } else {
                None
            },
            None => None,
        }
    }

    /// Returns the raw envelope bytes.
    pub fn as_bytes(&self) -> (r: &Vec<u8>)
        ensures
            r@ == self@,
    {
        &self.bytes
    }

    /// Rebuilds an envelope from its raw bytes; envelopes are opaque, so any
    /// bytes are accepted and preserved exactly.
    pub fn from_bytes(bytes: Vec<u8>) -> (r: ShareIdentity)
        ensures
            r@ == bytes@,
    {
        ShareIdentity { bytes }
    }

    /// The textual (base64) form of the envelope.
    pub fn to_text(&self) -> (r: String)
        ensures
            r@ == text_of(self@),
    {
        to_text_string(&self.bytes)
    }

    /// Parses the textual form of an envelope.
    pub fn parse_text(text: &str) -> (r: Result<ShareIdentity, ParseIdentityError>)
        ensures
            match r {
                Ok(s) => b64_decode(text.spec_bytes()) == Some(s@),
                Err(_) => b64_decode(text.spec_bytes()) is None,
            },
    {
        match from_text_str(text) {
            Some(b) => Ok(ShareIdentity { bytes: b }),
            None => Err(ParseIdentityError),
        }
    }
}

impl Clone for ShareIdentity {
    fn clone(&self) -> (r: Self)
        ensures
            r@ == self@,
    {
        ShareIdentity { bytes: self.bytes.clone() }
    }
}

impl PartialEq for ShareIdentity {
    fn eq(&self, other: &Self) -> (r: bool) {
        let r = self.bytes == other.bytes;
        proof {
            if r {
                assert(self.bytes@ =~= other.bytes@);
            }
        }
        r
    }
}

impl vstd::std_specs::cmp::PartialEqSpecImpl for ShareIdentity {
    open spec fn obeys_eq_spec() -> bool {
        true
    }

    open spec fn eq_spec(&self, other: &Self) -> bool {
        self@ == other@
    }
}

impl Identity {
    /// A well-formed identity: a 16-byte unique part and a 32-byte hash.
    pub open spec fn wf(&self) -> bool {
        self@.0.len() == 16 && self@.1.len() == 32
    }

    /// The cached hashed identity is exactly the hash of the unique identity.
    pub open spec fn consistent(&self) -> bool {
        self@.1 == kdf_of(self@.0)
    }

    /// Creates a new random identity, eagerly hashing the unique part.
    pub fn unique() -> (r: Identity)
        ensures
            r.wf(),
            r.consistent(),
    {
        let unique_id = UniqueIdentity::unique();
        let hashed_id = unique_id.hash();
        Identity { unique_id, hashed_id }
    }

    /// Rebuilds an identity from its unique part, recomputing the hash rather
    /// than trusting a stored one.
    pub fn from_unique(unique_id: UniqueIdentity) -> (r: Identity)
        requires
            unique_id.wf(),
        ensures
            r.wf(),
            r.consistent(),
            r@.0 == unique_id@,
    {
        let hashed_id = unique_id.hash();
        Identity { unique_id, hashed_id }
    }

    /// Returns the internal unique identity.
    pub fn unique_id(&self) -> (r: &UniqueIdentity)
        ensures
            r@ == self@.0,
    {
        &self.unique_id
    }

    /// Returns the hashed identity.
    pub fn hashed_id(&self) -> (r: &HashedIdentity)
        ensures
            r@ == self@.1,
    {
        &self.hashed_id
    }

    /// Creates a new shareable identity.
    ///
    /// Sealing is probabilistic, so nothing relates two envelopes; but under
    /// any secret key matching the given public key, the envelope reveals
    /// exactly this identity's unique part.
    pub fn new_share_id(&self, public_key: &PublicKey) -> (r: ShareIdentity)
        requires
            self.wf(),
            public_key.wf(),
        ensures
            forall|sk: Seq<u8>|
                sk.len() == 32 && pk_of(sk) == public_key@ ==> reveal_spec(r@, sk) == Some(
                    self@.0,
                ),
    {
        ShareIdentity { bytes: seal(&self.unique_id.bytes, public_key) }
    }

    /// The textual (base64) form of the identity: its unique part alone.
    pub fn to_text(&self) -> (r: String)
        ensures
            r@ == text_of(self@.0),
    {
        to_text_string(&self.unique_id.bytes)
    }

    /// Parses the textual form of an identity, recomputing its hash.
    pub fn parse_text(text: &str) -> (r: Result<Identity, ParseIdentityError>)
        ensures
            match r {
                Ok(id) => id.wf() && id.consistent() && id_parse(text.spec_bytes()) == Some(
                    id@.0,
                ),
                Err(_) => id_parse(text.spec_bytes()) is None,
            },
    {
        match from_text_str(text) {
            Some(b) => if b.len() == 16 {
                Ok(Identity::from_unique(UniqueIdentity { bytes: b }))
            } else {
                Err(ParseIdentityError)
            },
            None => Err(ParseIdentityError),
        }
    }
}

impl Clone for Identity {
    fn clone(&self) -> (r: Self)
        ensures
            r@ == self@,
    {
        Identity { unique_id: self.unique_id.clone(), hashed_id: self.hashed_id.clone() }
    }
}

/// Law: an identity's textual form decodes back to exactly its unique part,
/// from which the hash is recomputed on parsing.
pub proof fn lemma_identity_text_round_trip(u: Seq<u8>)
    requires
        u.len() == 16,
    ensures
        id_parse(vstd::utf8::encode_utf8(text_of(u))) == Some(u),
{
    lemma_text_round_trip(u);
}

} // verus!
