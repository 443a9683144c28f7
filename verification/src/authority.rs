//! Implements the central authority.

use vstd::prelude::*;
use crate::crypto::{gen_keypair, pk_of, PublicKey, SecretKey};

verus! {

/// Represents the central authority: the trust root holding the one long-lived
/// keypair whose secret half can decode shareable identities.
pub struct Authority {
    secret_key: SecretKey,
    public_key: PublicKey,
}

impl View for Authority {
    type V = (Seq<u8>, Seq<u8>);

    closed spec fn view(&self) -> (Seq<u8>, Seq<u8>) {
        (self.public_key@, self.secret_key@)
    }
}

impl Authority {
    /// Both keys are well-formed and the public key matches the secret key.
    pub open spec fn wf(&self) -> bool {
        self@.0.len() == 32 && self@.1.len() == 32 && self@.0 == pk_of(self@.1)
    }

    /// Creates a new authority with a fresh keypair.
    pub fn unique() -> (r: Authority)
        ensures
            r.wf(),
    {
        let (public_key, secret_key) = gen_keypair();
        Authority { public_key, secret_key }
    }

    /// Rebuilds an authority from stored keys.  Whether the two halves match
    /// is not checked here, so nothing is promised of decoding under them.
    pub fn from_keys(public_key: PublicKey, secret_key: SecretKey) -> (r: Authority)
        ensures
            r@ == (public_key@, secret_key@),
    {
        Authority { public_key, secret_key }
    }

    /// Returns the secret key of the authority.
    pub fn secret_key(&self) -> (r: &SecretKey)
        ensures
            r@ == self@.1,
            self.wf() ==> r.wf(),
    {
        &self.secret_key
    }

    /// Returns the public key of the authority.
    pub fn public_key(&self) -> (r: &PublicKey)
        ensures
            r@ == self@.0,
            self.wf() ==> r.wf(),
    {
        &self.public_key
    }
}

} // verus!
