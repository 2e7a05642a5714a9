//! The CBOR framing of a delegation proof: a self-described map holding the
//! certificate bytes and the already encoded hash tree.
use vstd::prelude::*;

use crate::messages::append_bytes;

verus! {

/// The big-endian bytes of the low `k` bytes of `v`.
pub open spec fn be_bytes(v: nat, k: nat) -> Seq<u8>
    decreases k,
{
    if k == 0 {
        Seq::empty()
    } else {
        be_bytes(v / 256, (k - 1) as nat).push((v % 256) as u8)
    }
}

/// The head of a CBOR item of major type `major` with argument `len`, in its
/// shortest form.
pub open spec fn cbor_head(major: u8, len: nat) -> Seq<u8> {
    let m = (major as nat * 32) as u8;
    if len < 24 {
        seq![(m + len) as u8]
    } else if len < 0x100 {
        seq![(m + 24) as u8] + be_bytes(len, 1)
    } else if len < 0x10000 {
        seq![(m + 25) as u8] + be_bytes(len, 2)
    } else if len < 0x1_0000_0000 {
        seq![(m + 26) as u8] + be_bytes(len, 4)
    } else {
        seq![(m + 27) as u8] + be_bytes(len, 8)
    }
}

/// The ASCII bytes of the key `certificate`.
pub open spec fn certificate_key() -> Seq<u8> {
    seq![0x63, 0x65, 0x72, 0x74, 0x69, 0x66, 0x69, 0x63, 0x61, 0x74, 0x65]
}

/// The ASCII bytes of the key `tree`.
pub open spec fn tree_key() -> Seq<u8> {
    seq![0x74, 0x72, 0x65, 0x65]
}

/// The proof blob: the self-describe tag, a map of two entries, the key
/// `certificate` with the certificate as a byte string, then the key `tree`
/// with the encoded tree.
pub open spec fn proof_blob_of(certificate: Seq<u8>, tree: Seq<u8>) -> Seq<u8> {
    seq![0xd9, 0xd9, 0xf7, 0xa2] + cbor_head(3, 11) + certificate_key() + cbor_head(
        2,
        certificate.len(),
    ) + certificate + cbor_head(3, 4) + tree_key() + tree
}

/// Appends the low `k` bytes of `v`, most significant first.
fn push_be(out: &mut Vec<u8>, v: u64, k: usize)
    requires
        k <= 8,
    ensures
        final(out)@ == old(out)@ + be_bytes(v as nat, k as nat),
    decreases k,
{
    if k == 0 {
        return;
    }
    push_be(out, v / 256, k - 1);
    out.push((v % 256) as u8);
    assert(be_bytes(v as nat, k as nat) == be_bytes((v / 256) as nat, (k - 1) as nat).push((v % 256) as u8));
}

/// Appends the head of a CBOR item.
pub fn push_head(out: &mut Vec<u8>, major: u8, len: u64)
    requires
        major < 8,
    ensures
        final(out)@ == old(out)@ + cbor_head(major, len as nat),
{
    let m: u8 = major * 32;
    if len < 24 {
        out.push(m + len as u8);
    } else if len < 0x100 {
        out.push(m + 24);
        push_be(out, len, 1);
    } else if len < 0x10000 {
        out.push(m + 25);
        push_be(out, len, 2);
    } else if len < 0x1_0000_0000 {
        out.push(m + 26);
        push_be(out, len, 4);
    } else {
        out.push(m + 27);
        push_be(out, len, 8);
    }
}

/// Frames a certificate and an encoded hash tree into a proof blob.
pub fn proof_blob(certificate: &[u8], tree: &[u8]) -> (r: Vec<u8>)
    ensures
        r@ == proof_blob_of(certificate@, tree@),
{
    let mut out: Vec<u8> = vec![0xd9, 0xd9, 0xf7, 0xa2];
    push_head(&mut out, 3, 11);
    let key: Vec<u8> = vec![0x63, 0x65, 0x72, 0x74, 0x69, 0x66, 0x69, 0x63, 0x61, 0x74, 0x65];
    append_bytes(&mut out, key.as_slice());
    push_head(&mut out, 2, certificate.len() as u64);
    append_bytes(&mut out, certificate);
    push_head(&mut out, 3, 4);
    let tkey: Vec<u8> = vec![0x74, 0x72, 0x65, 0x65];
    append_bytes(&mut out, tkey.as_slice());
    append_bytes(&mut out, tree);
    assert(key@ =~= certificate_key());
    assert(tkey@ =~= tree_key());
    assert(out@ =~= proof_blob_of(certificate@, tree@));
    out
}

} // verus!
