//! The certified two-level tree of ic-certified-map, as the signature authority
//! uses it: seed digest, then delegation digest, then an empty presence marker.
use ic_certified_map::{AsHashTree, HashTree, RbTree};
use vstd::prelude::*;

use crate::hash::{domain_hash, utf8};

verus! {

#[verifier::external_type_specification]
#[verifier::external_body]
#[verifier::reject_recursive_types(K)]
#[verifier::reject_recursive_types(V)]
pub struct ExRbTree<K, V>(RbTree<K, V>);

#[verifier::external_type_specification]
#[verifier::external_body]
pub struct ExHashTree<'a>(HashTree<'a>);

/// The delegation digests certified under one seed.
pub type Leaves = RbTree<crate::Hash, Vec<u8>>;

/// Seed digest to the delegation digests certified under it.
pub type SigTree = RbTree<crate::Hash, Leaves>;

/// The delegation digests held by a second-level tree.
pub uninterp spec fn leaves_of(t: RbTree<crate::Hash, Vec<u8>>) -> Set<Seq<u8>>;

/// The seeds of the signature tree, each with the delegation digests under it.
pub uninterp spec fn seeds_of(t: RbTree<crate::Hash, RbTree<crate::Hash, Vec<u8>>>) -> Map<Seq<u8>, Set<Seq<u8>>>;

/// The Merkle root of the signature tree.
pub uninterp spec fn sig_root_of(t: RbTree<crate::Hash, RbTree<crate::Hash, Vec<u8>>>) -> Seq<u8>;

/// The hash of a fork node over two subtree hashes: both hashes under the
/// domain separator `ic-hashtree-fork`.
pub open spec fn fork_hash_of(l: Seq<u8>, r: Seq<u8>) -> Seq<u8> {
    domain_hash(utf8("ic-hashtree-fork"@), l + r)
}

/// The hash of a node that labels a subtree hash: the label and the hash
/// under the domain separator `ic-hashtree-labeled`.
pub open spec fn labeled_hash_of(label: Seq<u8>, h: Seq<u8>) -> Seq<u8> {
    domain_hash(utf8("ic-hashtree-labeled"@), label + h)
}

/// Relies on RbTree::new: an empty tree.
#[verifier::external_body]
pub(crate) fn leaves_new() -> (r: Leaves)
    ensures
        leaves_of(r) == Set::<Seq<u8>>::empty(),
{
    RbTree::new()
}

/// Relies on RbTree::insert: the key is present afterwards, the others unchanged.
#[verifier::external_body]
pub(crate) fn leaves_insert(t: &mut Leaves, key: crate::Hash)
    ensures
        leaves_of(*final(t)) == leaves_of(*old(t)).insert(key@),
{
    t.insert(key, Vec::new())
}

/// Relies on RbTree::delete: the key is absent afterwards, the others unchanged.
#[verifier::external_body]
pub(crate) fn leaves_delete(t: &mut Leaves, key: &crate::Hash)
    ensures
        leaves_of(*final(t)) == leaves_of(*old(t)).remove(key@),
{
    t.delete(&key[..])
}

/// Relies on RbTree::is_empty: whether the tree holds no key.
#[verifier::external_body]
pub(crate) fn leaves_is_empty(t: &Leaves) -> (r: bool)
    ensures
        r == (leaves_of(*t) == Set::<Seq<u8>>::empty()),
{
    t.is_empty()
}

/// Relies on RbTree::get: whether the key is present.
#[verifier::external_body]
pub(crate) fn leaves_contains(t: &Leaves, key: &crate::Hash) -> (r: bool)
    ensures
        r == leaves_of(*t).contains(key@),
{
    t.get(&key[..]).is_some()
}

/// Relies on RbTree::witness: a proof of the key's presence or absence.
#[verifier::external_body]
pub(crate) fn leaves_witness<'a>(t: &'a Leaves, key: &crate::Hash) -> HashTree<'a> {
    t.witness(&key[..])
}

/// The root hash of a tree without keys: the digest of the separator
/// `ic-hashtree-empty` alone.
pub open spec fn empty_root() -> Seq<u8> {
    domain_hash(utf8("ic-hashtree-empty"@), Seq::empty())
}

/// Relies on RbTree::new: an empty tree, whose root is that of an empty hash
/// tree.
#[verifier::external_body]
pub(crate) fn tree_new() -> (r: SigTree)
    ensures
        seeds_of(r).dom() == Set::<Seq<u8>>::empty(),
        sig_root_of(r) == empty_root(),
{
    RbTree::new()
}

/// Relies on RbTree::get: the second-level tree under the seed, if any.
#[verifier::external_body]
pub(crate) fn tree_get<'a>(t: &'a SigTree, seed: &crate::Hash) -> (r: Option<&'a Leaves>)
    ensures
        r is Some <==> seeds_of(*t).contains_key(seed@),
        r matches Some(l) ==> leaves_of(*l) == seeds_of(*t)[seed@],
{
    t.get(&seed[..])
}

/// Relies on RbTree::insert: the seed maps to `leaves` afterwards.
#[verifier::external_body]
pub(crate) fn tree_insert(t: &mut SigTree, seed: crate::Hash, leaves: Leaves)
    ensures
        seeds_of(*final(t)) == seeds_of(*old(t)).insert(seed@, leaves_of(leaves)),
{
    t.insert(seed, leaves)
}

/// Relies on RbTree::modify: adds `key` to the second-level tree of a present
/// seed; an absent seed leaves the tree unchanged.
#[verifier::external_body]
pub(crate) fn tree_add_leaf(t: &mut SigTree, seed: &crate::Hash, key: crate::Hash)
    ensures
        seeds_of(*old(t)).contains_key(seed@) ==> seeds_of(*final(t)) == seeds_of(*old(t)).insert(
            seed@,
            seeds_of(*old(t))[seed@].insert(key@),
        ),
        !seeds_of(*old(t)).contains_key(seed@) ==> seeds_of(*final(t)) == seeds_of(*old(t)),
{
    t.modify(&seed[..], |leaves| add_leaf(leaves, key))
}

/// Adds `key` to a second-level tree.
pub(crate) fn add_leaf(leaves: &mut Leaves, key: crate::Hash)
    ensures
        leaves_of(*final(leaves)) == leaves_of(*old(leaves)).insert(key@),
{
    leaves_insert(leaves, key)
}

/// Relies on RbTree::modify: removes `key` from the second-level tree of a
/// present seed and tells whether that tree is then empty; an absent seed
/// leaves the tree unchanged.
#[verifier::external_body]
pub(crate) fn tree_drop_leaf(t: &mut SigTree, seed: &crate::Hash, key: &crate::Hash) -> (r: bool)
    ensures
        seeds_of(*old(t)).contains_key(seed@) ==> seeds_of(*final(t)) == seeds_of(*old(t)).insert(
            seed@,
            seeds_of(*old(t))[seed@].remove(key@),
        ) && r == (seeds_of(*old(t))[seed@].remove(key@) == Set::<Seq<u8>>::empty()),
        !seeds_of(*old(t)).contains_key(seed@) ==> seeds_of(*final(t)) == seeds_of(*old(t)) && !r,
{
    let mut emptied = false;
    t.modify(&seed[..], |leaves| emptied = drop_leaf(leaves, key));
    emptied
}

/// Removes `key` from a second-level tree and tells whether it is then empty.
pub(crate) fn drop_leaf(leaves: &mut Leaves, key: &crate::Hash) -> (r: bool)
    ensures
        leaves_of(*final(leaves)) == leaves_of(*old(leaves)).remove(key@),
        r == (leaves_of(*final(leaves)) == Set::<Seq<u8>>::empty()),
{
    leaves_delete(leaves, key);
    leaves_is_empty(leaves)
}

/// Relies on RbTree::delete: the seed is absent afterwards.
#[verifier::external_body]
pub(crate) fn tree_delete(t: &mut SigTree, seed: &crate::Hash)
    ensures
        seeds_of(*final(t)) == seeds_of(*old(t)).remove(seed@),
{
    t.delete(&seed[..])
}

/// Relies on AsHashTree::root_hash of RbTree: the tree's Merkle root; a tree
/// without keys has no nodes, and its root is that of an empty hash tree.
#[verifier::external_body]
pub(crate) fn tree_root(t: &SigTree) -> (r: crate::Hash)
    ensures
        r@ == sig_root_of(*t),
        seeds_of(*t).dom() == Set::<Seq<u8>>::empty() ==> r@ == empty_root(),
{
    t.root_hash()
}

/// Relies on RbTree::nested_witness and HashTree::reconstruct: a proof that
/// reaches the delegation digest under the seed, built from the second-level
/// tree's own witness, with the root hash it leads to. A witness only prunes
/// subtrees to their hashes, and a tree's root hash is that of its hash tree,
/// so the proof of a present key leads to the tree's root.
#[verifier::external_body]
pub(crate) fn tree_witness<'a>(t: &'a SigTree, seed: &crate::Hash, key: &crate::Hash) -> (r: (HashTree<'a>, crate::Hash))
    ensures
        seeds_of(*t).contains_key(seed@) && seeds_of(*t)[seed@].contains(key@) ==> r.1@ == sig_root_of(*t),
{
    let witness = t.nested_witness(&seed[..], |leaves| leaf_proof(leaves, key));
    let root = witness.reconstruct();
    (witness, root)
}

/// The proof of `key` in a second-level tree.
pub(crate) fn leaf_proof<'a>(leaves: &'a Leaves, key: &crate::Hash) -> HashTree<'a> {
    leaves_witness(leaves, key)
}

/// Relies on ic_certified_map::fork_hash: SHA-256 of the separator's length
/// as one byte, the separator, then both hashes.
#[verifier::external_body]
pub(crate) fn fork_hash(l: &crate::Hash, r: &crate::Hash) -> (h: crate::Hash)
    ensures
        h@ == fork_hash_of(l@, r@),
{
    ic_certified_map::fork_hash(l, r)
}

/// Relies on ic_certified_map::labeled_hash: SHA-256 of the separator's
/// length as one byte, the separator, the label, then the hash.
#[verifier::external_body]
pub(crate) fn labeled_hash(label: &[u8], h: &crate::Hash) -> (r: crate::Hash)
    ensures
        r@ == labeled_hash_of(label@, h@),
{
    ic_certified_map::labeled_hash(label, h)
}

/// Relies on HashTree::Pruned: a subtree known by its hash alone.
#[verifier::external_body]
pub(crate) fn pruned<'a>(h: crate::Hash) -> HashTree<'a> {
    HashTree::Pruned(h)
}

/// Relies on ic_certified_map::labeled.
#[verifier::external_body]
pub(crate) fn labeled<'a>(label: &'a [u8], t: HashTree<'a>) -> HashTree<'a> {
    ic_certified_map::labeled(label, t)
}

/// Relies on ic_certified_map::fork.
#[verifier::external_body]
pub(crate) fn fork<'a>(l: HashTree<'a>, r: HashTree<'a>) -> HashTree<'a> {
    ic_certified_map::fork(l, r)
}

/// Relies on serde_cbor::to_vec: the CBOR encoding of a proof tree. It writes
/// into a vector and the tree's serialization never fails, so it succeeds.
#[verifier::external_body]
pub(crate) fn tree_cbor(t: &HashTree) -> (r: Result<Vec<u8>, ()>)
    ensures
        r is Ok,
{
    serde_cbor::to_vec(t).map_err(|_| ())
}

} // verus!
