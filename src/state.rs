//! The root published to the trust anchor: the asset tree's root and the
//! signature tree's root, each under its label, joined by a fork.
use vstd::prelude::*;

use crate::certified::{fork_hash, fork_hash_of, labeled_hash, labeled_hash_of};
use crate::signatures::Signatures;

verus! {

/// The label of the asset tree, `http_assets`.
pub open spec fn label_assets_spec() -> Seq<u8> {
    seq![0x68, 0x74, 0x74, 0x70, 0x5f, 0x61, 0x73, 0x73, 0x65, 0x74, 0x73]
}

/// The label of the signature tree, `sig`.
pub open spec fn label_sig_spec() -> Seq<u8> {
    seq![0x73, 0x69, 0x67]
}

/// The label of the asset tree.
pub fn label_assets() -> (r: Vec<u8>)
    ensures
        r@ == label_assets_spec(),
{
    let r: Vec<u8> = vec![0x68, 0x74, 0x74, 0x70, 0x5f, 0x61, 0x73, 0x73, 0x65, 0x74, 0x73];
    assert(r@ =~= label_assets_spec());
    r
}

/// The label of the signature tree.
pub fn label_sig() -> (r: Vec<u8>)
    ensures
        r@ == label_sig_spec(),
{
    let r: Vec<u8> = vec![0x73, 0x69, 0x67];
    assert(r@ =~= label_sig_spec());
    r
}

/// The certified data for an asset root and a signature root.
pub open spec fn certified_root_of(assets: Seq<u8>, signatures: Seq<u8>) -> Seq<u8> {
    fork_hash_of(
        labeled_hash_of(label_assets_spec(), assets),
        labeled_hash_of(label_sig_spec(), signatures),
    )
}

/// The signature authority together with the root of the asset tree that an
/// outside collaborator keeps.
pub struct State {
    signatures: Signatures,
    assets: crate::Hash,
}

impl State {
    pub closed spec fn spec_signatures(&self) -> Signatures {
        self.signatures
    }

    pub closed spec fn spec_assets(&self) -> crate::Hash {
        self.assets
    }

    /// A state with nothing certified, over the given asset root.
    pub fn new(assets: crate::Hash) -> (r: State)
        ensures
            r.spec_signatures().wf(),
            r.spec_signatures().leaves() == Map::<Seq<u8>, Set<Seq<u8>>>::empty(),
            r.spec_signatures().queue() == Seq::<(Seq<u8>, Seq<u8>, u64)>::empty(),
            r.spec_assets() == assets,
    {
        State { signatures: Signatures::new(), assets }
    }

    pub fn signatures(&self) -> (r: &Signatures)
        ensures
            *r == self.spec_signatures(),
    {
        &self.signatures
    }

    /// Mutable access to the signature authority.
    pub fn signatures_mut(&mut self) -> (r: &mut Signatures)
        ensures
            *r == old(self).spec_signatures(),
            final(self).spec_signatures() == *final(r),
            final(self).spec_assets() == old(self).spec_assets(),
    {
        &mut self.signatures
    }

    /// The root of the asset tree.
    pub fn assets(&self) -> (r: crate::Hash)
        ensures
            r == self.spec_assets(),
    {
        self.assets
    }

    /// Replaces the root of the asset tree.
    pub fn set_assets(&mut self, assets: crate::Hash)
        ensures
            final(self).spec_assets() == assets,
            final(self).spec_signatures() == old(self).spec_signatures(),
    {
        self.assets = assets;
    }

    /// The certified data to publish for `signatures` and this asset root.
    pub fn update_root_hash(&self, signatures: &Signatures) -> (r: crate::Hash)
        ensures
            r@ == certified_root_of(self.spec_assets()@, signatures.root()),
    {
        let sig_root = signatures.root_hash();
        let labeled_assets = labeled_hash(label_assets().as_slice(), &self.assets);
        let labeled_signatures = labeled_hash(label_sig().as_slice(), &sig_root);
        fork_hash(&labeled_assets, &labeled_signatures)
    }
}

} // verus!
