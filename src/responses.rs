//! What the handshake and delegation calls hand back.
use vstd::prelude::*;

use crate::messages::{fits_principals, message_hash, message_text, Message};
use crate::timestamp::Timestamp;

verus! {

/// An issued challenge.
pub struct Prepared {
    pub message: String,
    pub expiration: u64,
    pub expired: Timestamp,
    pub hash: crate::Hash,
}

impl Prepared {
    /// The response for an issued challenge.
    pub fn from_message(message: &Message) -> (r: Prepared)
        requires
            fits_principals(message@.canisters),
        ensures
            r.message@ == message_text(message@),
            r.expiration == message@.expiration,
            r.expired.spec_nanos() == message@.expiration,
            r.hash@ == message_hash(message@),
    {
        Prepared {
            message: message.text(),
            expiration: message.expiration(),
            expired: Timestamp::from_nanos(message.expiration()),
            hash: message.hash(),
        }
    }
}

/// A redeemed challenge: the delegation it certified.
pub struct Login {
    pub expiration: u64,
    pub expired: Timestamp,
    pub canisters: Vec<Vec<u8>>,
    pub hash: crate::Hash,
}

/// The delegation part of a signed delegation.
pub struct Delegated {
    pub pubkey: Vec<u8>,
    pub expiration: u64,
    pub targets: Vec<Vec<u8>>,
}

/// A delegation with its proof and the user's synthetic public key.
pub struct SignedDelegation {
    pub delegation: Delegated,
    pub signature: Vec<u8>,
    pub pubkey: Vec<u8>,
}

/// One delegated key of the middleware flow and its proof.
pub struct MiddlewareDelegated {
    pub pubkey: Vec<u8>,
    pub signature: Vec<u8>,
}

/// The two delegations of the middleware flow, sharing one expiration and
/// one target set.
pub struct MiddlewareSignedDelegation {
    pub session: MiddlewareDelegated,
    pub middleware: MiddlewareDelegated,
    pub expiration: u64,
    pub canisters: Vec<Vec<u8>>,
    pub pubkey: Vec<u8>,
}

} // verus!
