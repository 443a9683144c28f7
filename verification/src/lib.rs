//! Privacy-preserving contact-tracing identities.
//!
//! A device keeps a secret [`auth::UniqueIdentity`], shares a one-way
//! [`auth::HashedIdentity`] for anonymous polling, and broadcasts
//! authority-encrypted [`auth::ShareIdentity`] envelopes to nearby devices.
//! Observed envelopes accumulate in a [`contactlog::ContactLog`], which only
//! the [`authority::Authority`] holding the matching secret key can decode.

pub mod auth;
pub mod authority;
pub mod contactlog;
pub mod crypto;
pub mod utils;

pub use crate::auth::{
    HashedIdentity, Identity, ParseHashedIdentityError, ParseIdentityError, ShareIdentity,
    UniqueIdentity,
};
pub use crate::authority::Authority;
pub use crate::contactlog::ContactLog;
pub use crate::crypto::{
    gen_keypair, PublicKey, PublicKeyParseError, SecretKey, SecretKeyParseError,
};
