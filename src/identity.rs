//! Identity derivation: the canister-scoped synthetic public key of a user, the
//! self-authenticating principal of a key, and the textual form of principals.
use simple_asn1::{ASN1Block, BigUint, OID};
use vstd::prelude::*;

use crate::error::AuthError;
use crate::utils::seed_of;

verus! {

/// Components of the object identifier that marks a canister signature key.
pub open spec fn canister_sig_oid() -> Seq<u64> {
    seq![1, 3, 6, 1, 4, 1, 56387, 1, 2]
}

/// Whether the bytes parse as DER.
pub uninterp spec fn is_der(data: Seq<u8>) -> bool;

/// The DER encoding of a subject-public-key-info whose algorithm identifier
/// holds the object identifier `oid` and whose key is the bit string of
/// `bits` bits taken from `subject`.
pub uninterp spec fn spki_der_of(oid: Seq<u64>, bits: nat, subject: Seq<u8>) -> Seq<u8>;

/// The self-authenticating principal of a public key.
pub uninterp spec fn self_authenticating_of(public_key: Seq<u8>) -> Seq<u8>;

/// The textual form of a principal.
pub uninterp spec fn principal_text_of(principal: Seq<u8>) -> Seq<char>;

/// Relies on simple_asn1::from_der: whether the bytes decode as DER blocks.
#[verifier::external_body]
pub(crate) fn parses_as_der(data: &[u8]) -> (r: bool)
    ensures
        r == is_der(data@),
{
    simple_asn1::from_der(data).is_ok()
}

/// Relies on simple_asn1::to_der, on a sequence of an algorithm identifier
/// (a sequence holding one object identifier) and a bit string. Encoding
/// fails only on an object identifier with fewer than two arcs or with first
/// arcs out of range, which the canister signature identifier is not.
#[verifier::external_body]
fn spki_der(oid: &Vec<u64>, bits: usize, subject: &Vec<u8>) -> (r: Result<Vec<u8>, ()>)
    requires
        bits <= 8 * subject@.len(),
    ensures
        r matches Ok(der) ==> der@ == spki_der_of(oid@, bits as nat, subject@),
        oid@ == canister_sig_oid() ==> r is Ok,
{
    let oid = OID::new(oid.iter().map(|c| BigUint::from(*c)).collect());
    let algo = ASN1Block::Sequence(0, vec![ASN1Block::ObjectIdentifier(0, oid)]);
    let key = ASN1Block::BitString(0, bits, subject.clone());
    simple_asn1::to_der(&ASN1Block::Sequence(0, vec![algo, key])).map_err(|_| ())
}

/// Relies on candid::Principal::self_authenticating: the SHA-224 digest of the
/// key followed by the tag byte 2, 29 bytes in all.
#[verifier::external_body]
pub(crate) fn self_authenticating(public_key: &[u8]) -> (r: Vec<u8>)
    ensures
        r@ == self_authenticating_of(public_key@),
        r@.len() == 29,
        r@[28] == 2,
{
    candid::Principal::self_authenticating(public_key).as_slice().to_vec()
}

/// Relies on candid::Principal::to_text, for a principal of at most 29 bytes.
#[verifier::external_body]
pub(crate) fn principal_text(principal: &[u8]) -> (r: String)
    requires
        principal@.len() <= 29,
    ensures
        r@ == principal_text_of(principal@),
{
    candid::Principal::from_slice(principal).to_text()
}

/// The key material of a user's synthetic key: the length of the canister id
/// as one byte, the canister id, then the user's seed.
pub open spec fn key_subject(canister: Seq<u8>, user: Seq<char>) -> Seq<u8> {
    seq![canister.len() as u8] + canister + seed_of(user)
}

/// The DER-encoded synthetic public key of `user` under canister `canister`.
pub open spec fn user_key_of(canister: Seq<u8>, user: Seq<char>) -> Seq<u8> {
    spki_der_of(
        canister_sig_oid(),
        key_subject(canister, user).len() * 8,
        key_subject(canister, user),
    )
}

/// Derives the synthetic public key of `user` under canister `canister`.
pub fn user_canister_public_key(canister: &Vec<u8>, user: &str) -> (r: Result<Vec<u8>, AuthError>)
    requires
        canister@.len() + 33 <= usize::MAX / 8,
    ensures
        (r matches Ok(key) && key@ == user_key_of(canister@, user@)),
{
    let seed = crate::utils::seed(user);
    let mut subject: Vec<u8> = Vec::new();
    subject.push(canister.len() as u8);
    let mut k: usize = 0;
    while k < canister.len()
        invariant
            k <= canister@.len(),
            subject@ == seq![canister@.len() as u8] + canister@.take(k as int),
        decreases canister@.len() - k,
    {
        subject.push(canister[k]);
        assert(canister@.take(k as int + 1) =~= canister@.take(k as int).push(canister@[k as int]));
        k = k + 1;
    }
    assert(canister@.take(canister@.len() as int) =~= canister@);
    let mut m: usize = 0;
    while m < 32
        invariant
            m <= 32,
            subject@ == seq![canister@.len() as u8] + canister@ + seed@.take(m as int),
            subject@.len() == 1 + canister@.len() + m,
        decreases 32 - m,
    {
        subject.push(seed[m]);
        assert(seed@.take(m as int + 1) =~= seed@.take(m as int).push(seed@[m as int]));
        m = m + 1;
    }
    assert(seed@.take(32) =~= seed@);
    let oid: Vec<u64> = vec![1, 3, 6, 1, 4, 1, 56387, 1, 2];
    assert(oid@ =~= canister_sig_oid());
    let bits: usize = subject.len() * 8;
    match spki_der(&oid, bits, &subject) {
        Ok(der) => Ok(der),
        Err(_) => Err(AuthError::Encoding),
    }
}

} // verus!
