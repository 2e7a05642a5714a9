//! The failures the authority reports.
use vstd::prelude::*;
use vstd::string::StringExecFns;

verus! {

/// Why a call was refused.
#[derive(Debug, PartialEq, Eq)]
pub enum AuthError {
    /// The user, once trimmed, is empty.
    UserEmpty,
    /// No session public key was given.
    SessionEmpty,
    /// The session public key is not DER.
    SessionInvalid,
    /// No middleware public key was given.
    MiddlewareEmpty,
    /// The middleware public key is not DER.
    MiddlewareInvalid,
    /// The challenge never existed, was already redeemed, or has expired.
    NotFoundOrExpired,
    /// No certified delegation is stored under the seed and hash.
    SignatureNotFound,
    /// The witness does not lead to the live root of the signature tree.
    RootMismatch { reconstructed: [u8; 32], root: [u8; 32] },
    /// The synthetic public key or the proof could not be encoded.
    Encoding,
    /// The caller is not among the authorities.
    Unauthorized,
}

/// The text that a failure is reported with.
pub open spec fn error_text(e: AuthError) -> Seq<char> {
    match e {
        AuthError::UserEmpty => "User is empty"@,
        AuthError::SessionEmpty => "Session public key is empty"@,
        AuthError::SessionInvalid => "Session public key is invalid"@,
        AuthError::MiddlewareEmpty => "Middleware public key is empty"@,
        AuthError::MiddlewareInvalid => "Middleware public key is invalid"@,
        AuthError::NotFoundOrExpired => "Hash not found or expired"@,
        AuthError::SignatureNotFound => "Signature not found"@,
        AuthError::RootMismatch { .. } => "Witness hash mismatch"@,
        AuthError::Encoding => "Encoding failed"@,
        AuthError::Unauthorized => "Unauthorized"@,
    }
}

impl AuthError {
    /// The text that the failure is reported with.
    pub fn message(&self) -> (r: String)
        ensures
            r@ == error_text(*self),
    {
        match self {
            AuthError::UserEmpty => String::from_str("User is empty"),
            AuthError::SessionEmpty => String::from_str("Session public key is empty"),
            AuthError::SessionInvalid => String::from_str("Session public key is invalid"),
            AuthError::MiddlewareEmpty => String::from_str("Middleware public key is empty"),
            AuthError::MiddlewareInvalid => String::from_str("Middleware public key is invalid"),
            AuthError::NotFoundOrExpired => String::from_str("Hash not found or expired"),
            AuthError::SignatureNotFound => String::from_str("Signature not found"),
            AuthError::RootMismatch { .. } => String::from_str("Witness hash mismatch"),
            AuthError::Encoding => String::from_str("Encoding failed"),
            AuthError::Unauthorized => String::from_str("Unauthorized"),
        }
    }
}

} // verus!
