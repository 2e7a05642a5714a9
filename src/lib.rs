//! Certified delegation authority: canonical hashing, a two-level certified
//! signature tree with expiry-driven pruning, delegation construction and
//! signing, and the short-lived challenge store of the prepare/login handshake.
use vstd::prelude::*;

pub mod auth;
pub mod cbor;
pub mod certified;
pub mod ckbtc;
pub mod delegation;
pub mod error;
pub mod globals;
pub mod hash;
pub mod identity;
pub mod messages;
pub mod middlewares;
pub mod payloads;
pub mod principal;
pub mod responses;
pub mod setting;
pub mod signatures;
pub mod state;
pub mod table;
pub mod timestamp;
pub mod utils;

verus! {

/// A 32-byte digest, the key and content address used throughout.
pub type Hash = [u8; 32];

} // verus!
