//! Sealed-box public-key encryption and the authority's key types.
//!
//! The scheme is an anonymous sealed box: anyone holding the receiver's
//! public key can seal a message, and only the matching secret key opens it.
//! Opening never explains a failure; it simply yields nothing.

use vstd::prelude::*;
use vstd::string::StringSliceAdditionalSpecFns;
use crate::utils::{b64_decode, from_text_str, lemma_text_round_trip, text_of, to_text_string};

verus! {

// Name for the public key that sodiumoxide derives from 32 secret-key bytes;
// the derivation is a function of those bytes alone.
pub uninterp spec fn pk_of(secret_key: Seq<u8>) -> Seq<u8>;

// Name for what sodiumoxide's sealed-box `open` returns on a ciphertext and
// 32 secret-key bytes; the result is a function of those two values alone.
pub uninterp spec fn unsealed_of(ciphertext: Seq<u8>, secret_key: Seq<u8>) -> Option<Seq<u8>>;

/// Represents a public key: the freely distributable half of a keypair.
#[derive(Debug)]
pub struct PublicKey {
    bytes: Vec<u8>,
}

/// Represents a secret key: the decrypting half of a keypair, never shared.
#[derive(Debug)]
pub struct SecretKey {
    bytes: Vec<u8>,
}

impl View for PublicKey {
    type V = Seq<u8>;

    closed spec fn view(&self) -> Seq<u8> {
        self.bytes@
    }
}

impl View for SecretKey {
    type V = Seq<u8>;

    closed spec fn view(&self) -> Seq<u8> {
        self.bytes@
    }
}

impl PublicKey {
    /// A well-formed public key holds exactly 32 bytes.
    pub open spec fn wf(&self) -> bool {
        self@.len() == 32
    }

    /// Returns the raw key bytes.
    pub fn as_bytes(&self) -> (r: &Vec<u8>)
        ensures
            r@ == self@,
    {
        &self.bytes
    }

    /// Rebuilds a public key from its raw bytes, as stored or received;
    /// anything but exactly 32 bytes is rejected.
    pub fn from_bytes(bytes: Vec<u8>) -> (r: Result<PublicKey, PublicKeyParseError>)
        ensures
            match r {
                Ok(k) => k.wf() && k@ == bytes@,
                Err(_) => bytes@.len() != 32,
            },
            bytes@.len() == 32 ==> r is Ok,
    {
        if bytes.len() == 32 {
            Ok(PublicKey { bytes })
        } else {
            Err(PublicKeyParseError)
        }
    }

    /// The textual (base64) form of the key.
    pub fn to_text(&self) -> (r: String)
        ensures
            r@ == text_of(self@),
    {
        to_text_string(&self.bytes)
    }

    /// Parses the textual form of a public key.
    pub fn parse_text(text: &str) -> (r: Result<PublicKey, PublicKeyParseError>)
        ensures
            match r {
                Ok(k) => k.wf() && key_parse(text.spec_bytes()) == Some(k@),
                Err(_) => key_parse(text.spec_bytes()) is None,
            },
    {
        match from_text_str(text) {
            Some(b) => if b.len() == 32 {
                Ok(PublicKey { bytes: b })
            } else {
                Err(PublicKeyParseError)
            },
            None => Err(PublicKeyParseError),
        }
    }
}

impl Clone for PublicKey {
    fn clone(&self) -> (r: Self)
        ensures
            r@ == self@,
    {
        PublicKey { bytes: self.bytes.clone() }
    }
}

impl PartialEq for PublicKey {
    fn eq(&self, other: &Self) -> (r: bool) {
        let r = self.bytes == other.bytes;
        proof {
            if r {
                assert(self.bytes@ =~= other.bytes@);
            }
        }
        r
    }
}

impl vstd::std_specs::cmp::PartialEqSpecImpl for PublicKey {
    open spec fn obeys_eq_spec() -> bool {
        true
    }

    open spec fn eq_spec(&self, other: &Self) -> bool {
        self@ == other@
    }
}

impl SecretKey {
    /// A well-formed secret key holds exactly 32 bytes.
    pub open spec fn wf(&self) -> bool {
        self@.len() == 32
    }

    /// Returns the raw key bytes.
    pub fn as_bytes(&self) -> (r: &Vec<u8>)
        ensures
            r@ == self@,
    {
        &self.bytes
    }

    /// Rebuilds a secret key from its raw bytes, as stored; anything but
    /// exactly 32 bytes is rejected.
    pub fn from_bytes(bytes: Vec<u8>) -> (r: Result<SecretKey, SecretKeyParseError>)
        ensures
            match r {
                Ok(k) => k.wf() && k@ == bytes@,
                Err(_) => bytes@.len() != 32,
            },
            bytes@.len() == 32 ==> r is Ok,
    {
        if bytes.len() == 32 {
            Ok(SecretKey { bytes })
        } else {
            Err(SecretKeyParseError)
        }
    }

    /// The textual (base64) form of the key.
    pub fn to_text(&self) -> (r: String)
        ensures
            r@ == text_of(self@),
    {
        to_text_string(&self.bytes)
    }

    /// Parses the textual form of a secret key.
    pub fn parse_text(text: &str) -> (r: Result<SecretKey, SecretKeyParseError>)
        ensures
            match r {
                Ok(k) => k.wf() && key_parse(text.spec_bytes()) == Some(k@),
                Err(_) => key_parse(text.spec_bytes()) is None,
            },
    {
        match from_text_str(text) {
            Some(b) => if b.len() == 32 {
                Ok(SecretKey { bytes: b })
            } else {
                Err(SecretKeyParseError)
            },
            None => Err(SecretKeyParseError),
        }
    }
}

impl Clone for SecretKey {
    fn clone(&self) -> (r: Self)
        ensures
            r@ == self@,
    {
        SecretKey { bytes: self.bytes.clone() }
    }
}

/// What parsing key text yields: the decoded bytes, if they form a 32-byte
/// key.
pub open spec fn key_parse(t: Seq<u8>) -> Option<Seq<u8>> {
    match b64_decode(t) {
        Some(b) => if b.len() == 32 {
            Some(b)
        } else {
            None
        },
        None => None,
    }
}

/// Error for invalid public keys.
#[derive(Clone, Copy, Debug)]
pub struct PublicKeyParseError;

/// Error for invalid secret keys.
#[derive(Clone, Copy, Debug)]
pub struct SecretKeyParseError;

/// Relies on sodiumoxide's `crypto::box_::curve25519xsalsa20poly1305::gen_keypair`:
/// it returns a fresh 32-byte keypair whose public half is derived from the
/// secret half.  The keypair itself is random, so nothing more is promised.
#[verifier::external_body]
fn gen_keypair_bytes() -> (r: (Vec<u8>, Vec<u8>))
    ensures
        r.0@.len() == 32,
        r.1@.len() == 32,
        r.0@ == pk_of(r.1@),
{
    let (pk, sk) = sodiumoxide::crypto::box_::curve25519xsalsa20poly1305::gen_keypair();
    (pk.as_ref().to_vec(), sk.0.to_vec())
}

/// Generates a new key pair.
pub fn gen_keypair() -> (r: (PublicKey, SecretKey))
    ensures
        r.0.wf(),
        r.1.wf(),
        r.0@ == pk_of(r.1@),
{
    let (pk, sk) = gen_keypair_bytes();
    (PublicKey { bytes: pk }, SecretKey { bytes: sk })
}

/// Encrypts some bytes.
///
/// Relies on sodiumoxide's `crypto::sealedbox::seal`: the ciphertext opens to
/// the message under any 32-byte secret key whose derived public key is the
/// receiver's.  Sealing draws fresh randomness, so nothing is promised of the
/// ciphertext bytes themselves.
#[verifier::external_body]
pub(crate) fn seal(bytes: &Vec<u8>, receiver: &PublicKey) -> (r: Vec<u8>)
    requires
        receiver.wf(),
    ensures
        forall|sk: Seq<u8>|
            sk.len() == 32 && pk_of(sk) == receiver@ ==> unsealed_of(r@, sk) == Some(bytes@),
{
    let pk = sodiumoxide::crypto::box_::curve25519xsalsa20poly1305::PublicKey::from_slice(
        &receiver.bytes,
    ).unwrap();
    sodiumoxide::crypto::sealedbox::seal(bytes, &pk)
}

/// Decrypts bytes.
///
/// Relies on sodiumoxide's `crypto::sealedbox::open`, with the public key that
/// `SecretKey::public_key` derives from the secret bytes: it returns the
/// plaintext exactly when opening succeeds, and nothing on any failure.
#[verifier::external_body]
pub(crate) fn unseal(bytes: &Vec<u8>, secret_key: &SecretKey) -> (r: Option<Vec<u8>>)
    requires
        secret_key.wf(),
    ensures
        r is Some <==> unsealed_of(bytes@, secret_key@) is Some,
        r is Some ==> r->0@ == unsealed_of(bytes@, secret_key@)->0,
{
    let sk = sodiumoxide::crypto::box_::curve25519xsalsa20poly1305::SecretKey::from_slice(
        &secret_key.bytes,
    ).unwrap();
    let pk = sk.public_key();
    sodiumoxide::crypto::sealedbox::open(bytes, &pk, &sk).ok()
}

/// Law: a well-formed key's textual form, read back as text, parses to
/// exactly the key's bytes.
pub proof fn lemma_key_text_round_trip(k: Seq<u8>)
    requires
        k.len() == 32,
    ensures
        key_parse(vstd::utf8::encode_utf8(text_of(k))) == Some(k),
{
    lemma_text_round_trip(k);
}

} // verus!
