//! The signature authority: certified delegation digests under user seeds,
//! with a queue ordered by expiration that drives lazy, bounded pruning.
use ic_certified_map::HashTree;
use vstd::prelude::*;

use crate::certified::{
    empty_root,
    leaves_contains, leaves_insert, leaves_new, seeds_of, sig_root_of, tree_add_leaf, tree_delete,
    tree_drop_leaf, tree_get, tree_insert, tree_new, tree_root, tree_witness, SigTree,
};
use crate::setting::Setting;
use crate::utils::after_minutes;

verus! {

/// The most expired entries one pruning pass removes.
pub const PRUNE_LIMIT: usize = 10;

/// When the delegation `hash` under `seed` stops being certified.
pub struct SigExpiration {
    pub seed: crate::Hash,
    pub hash: crate::Hash,
    pub expiration: u64,
}

/// Seed, delegation digest and expiration of a queue entry.
pub open spec fn entry_view(e: SigExpiration) -> (Seq<u8>, Seq<u8>, u64) {
    (e.seed@, e.hash@, e.expiration)
}

/// Expirations never increase along the queue: its last entry expires first.
pub open spec fn queue_ordered(q: Seq<(Seq<u8>, Seq<u8>, u64)>) -> bool {
    forall|i: int, j: int| 0 <= i < j < q.len() ==> (#[trigger] q[i]).2 >= (#[trigger] q[j]).2
}

/// The tree with `hash` certified under `seed`.
pub open spec fn with_leaf(m: Map<Seq<u8>, Set<Seq<u8>>>, seed: Seq<u8>, hash: Seq<u8>) -> Map<
    Seq<u8>,
    Set<Seq<u8>>,
> {
    if m.contains_key(seed) {
        m.insert(seed, m[seed].insert(hash))
    } else {
        m.insert(seed, set![hash])
    }
}

/// The tree with every digest of `hashes` certified under `seed`.
pub open spec fn with_leaves(m: Map<Seq<u8>, Set<Seq<u8>>>, seed: Seq<u8>, hashes: Seq<Seq<u8>>) -> Map<
    Seq<u8>,
    Set<Seq<u8>>,
>
    decreases hashes.len(),
{
    if hashes.len() == 0 {
        m
    } else {
        with_leaf(with_leaves(m, seed, hashes.drop_last()), seed, hashes.last())
    }
}

/// The tree without `hash` under `seed`; a seed left with nothing goes too.
pub open spec fn without_leaf(m: Map<Seq<u8>, Set<Seq<u8>>>, seed: Seq<u8>, hash: Seq<u8>) -> Map<
    Seq<u8>,
    Set<Seq<u8>>,
> {
    if !m.contains_key(seed) {
        m
    } else if m[seed].remove(hash) == Set::<Seq<u8>>::empty() {
        m.remove(seed)
    } else {
        m.insert(seed, m[seed].remove(hash))
    }
}

/// The tree after the last `n` entries of `q` are popped, last first, each
/// taking its leaf out.
pub open spec fn without_popped(
    m: Map<Seq<u8>, Set<Seq<u8>>>,
    q: Seq<(Seq<u8>, Seq<u8>, u64)>,
    n: nat,
) -> Map<Seq<u8>, Set<Seq<u8>>>
    decreases n,
{
    if n == 0 || q.len() == 0 {
        m
    } else {
        without_popped(without_leaf(m, q.last().0, q.last().1), q.drop_last(), (n - 1) as nat)
    }
}

/// A pruning pass at `now` over queue `q` pops exactly `n` entries: the last
/// `n` have expired by `now`, and it stops at `PRUNE_LIMIT`, at the end of the
/// queue, or before an entry that has not expired.
pub open spec fn prune_stops_at(q: Seq<(Seq<u8>, Seq<u8>, u64)>, now: u64, n: nat) -> bool {
    &&& n <= PRUNE_LIMIT
    &&& n <= q.len()
    &&& forall|i: int| q.len() - n <= i < q.len() ==> (#[trigger] q[i]).2 <= now
    &&& (n == PRUNE_LIMIT || n == q.len() || q[q.len() - n - 1].2 > now)
}

/// The queue entries that certify each of `hashes` under `seed` until
/// `expiration`.
pub open spec fn queue_entries(seed: Seq<u8>, hashes: Seq<Seq<u8>>, expiration: u64) -> Seq<(Seq<u8>, Seq<u8>, u64)> {
    hashes.map_values(|h: Seq<u8>| (seed, h, expiration))
}

/// Every certified leaf has an entry in the queue, and no seed is left
/// without leaves.
pub open spec fn tree_covered(m: Map<Seq<u8>, Set<Seq<u8>>>, q: Seq<(Seq<u8>, Seq<u8>, u64)>) -> bool {
    &&& forall|s: Seq<u8>| #[trigger] m.contains_key(s) ==> m[s] != Set::<Seq<u8>>::empty()
    &&& forall|s: Seq<u8>, h: Seq<u8>|
        #[trigger] m.contains_key(s) && #[trigger] m[s].contains(h) ==> exists|i: int|
            0 <= i < q.len() && (#[trigger] q[i]).0 == s && q[i].1 == h
}

/// The certified delegations and the queue that expires them.
pub struct Signatures {
    certified: SigTree,
    expiration: Vec<SigExpiration>,
}

impl Signatures {
    /// Seed digest to the delegation digests certified under it.
    pub closed spec fn leaves(&self) -> Map<Seq<u8>, Set<Seq<u8>>> {
        seeds_of(self.certified)
    }

    /// The expiration queue; its last entry expires first.
    pub closed spec fn queue(&self) -> Seq<(Seq<u8>, Seq<u8>, u64)> {
        self.expiration@.map_values(|e: SigExpiration| entry_view(e))
    }

    /// The Merkle root of the certified tree.
    pub closed spec fn root(&self) -> Seq<u8> {
        sig_root_of(self.certified)
    }

    pub open spec fn wf(&self) -> bool {
        queue_ordered(self.queue()) && tree_covered(self.leaves(), self.queue())
    }

    /// An authority with nothing certified.
    pub fn new() -> (r: Signatures)
        ensures
            r.wf(),
            r.leaves() == Map::<Seq<u8>, Set<Seq<u8>>>::empty(),
            r.queue() == Seq::<(Seq<u8>, Seq<u8>, u64)>::empty(),
            r.root() == empty_root(),
    {
        let r = Signatures { certified: tree_new(), expiration: Vec::new() };
        assert(r.leaves() =~= Map::<Seq<u8>, Set<Seq<u8>>>::empty());
        assert(r.queue() =~= Seq::<(Seq<u8>, Seq<u8>, u64)>::empty());
        r
    }

    /// Whether `hash` is certified under `seed`.
    pub fn contains(&self, seed: &crate::Hash, hash: &crate::Hash) -> (r: bool)
        ensures
            r == (self.leaves().contains_key(seed@) && self.leaves()[seed@].contains(hash@)),
    {
        match tree_get(&self.certified, seed) {
            Some(leaves) => leaves_contains(leaves, hash),
            None => false,
        }
    }

    /// Certifies `hash` under `seed` until `expiration`.
    fn add(&mut self, seed: crate::Hash, hash: crate::Hash, expiration: u64)
        requires
            old(self).wf(),
        ensures
            final(self).wf(),
            final(self).leaves() == with_leaf(old(self).leaves(), seed@, hash@),
            final(self).queue().to_multiset() == old(self).queue().to_multiset().insert(
                (seed@, hash@, expiration),
            ),
    {
        broadcast use vstd::seq_lib::group_to_multiset_ensures;

        let ghost old_leaves = self.leaves();
        let ghost old_queue = self.queue();
        if tree_get(&self.certified, &seed).is_none() {
            let mut leaves = leaves_new();
            leaves_insert(&mut leaves, hash);
            tree_insert(&mut self.certified, seed, leaves);
            assert(set![hash@] =~= Set::<Seq<u8>>::empty().insert(hash@));
        } else {
            tree_add_leaf(&mut self.certified, &seed, hash);
        }
        let mut i: usize = 0;
        while i < self.expiration.len() && self.expiration[i].expiration >= expiration
            invariant
                i <= self.expiration@.len(),
                self.queue() == old_queue,
                forall|j: int| 0 <= j < i ==> (#[trigger] self.expiration@[j]).expiration >= expiration,
            decreases self.expiration@.len() - i,
        {
            i = i + 1;
        }
        let entry = SigExpiration { seed, hash, expiration };
        self.expiration.insert(i, entry);
        proof {
            let q = self.queue();
            let e = (seed@, hash@, expiration);
            assert(q =~= old_queue.insert(i as int, e));
            vstd::seq_lib::to_multiset_insert(old_queue, i as int, e);
            assert forall|a: int, b: int| 0 <= a < b < q.len() implies (#[trigger] q[a]).2 >= (#[trigger] q[b]).2 by {
                if a == i {
                    if b - 1 > i {
                        assert(old_queue[i as int].2 >= old_queue[b - 1].2);
                    }
                    assert(q[b] == old_queue[b - 1]);
                } else if b == i {
                    assert(q[a] == old_queue[a]);
                } else {
                    let a0 = if a < i { a } else { a - 1 };
                    let b0 = if b < i { b } else { b - 1 };
                    assert(q[a] == old_queue[a0]);
                    assert(q[b] == old_queue[b0]);
                }
            }
            let m = self.leaves();
            assert forall|s: Seq<u8>| #[trigger] m.contains_key(s) implies m[s] != Set::<Seq<u8>>::empty() by {
                if s == seed@ {
                    assert(m[s].contains(hash@));
                }
            }
            assert forall|s: Seq<u8>, h: Seq<u8>| #[trigger] m.contains_key(s) && #[trigger] m[s].contains(h) implies exists|k: int|
                0 <= k < q.len() && (#[trigger] q[k]).0 == s && q[k].1 == h by {
                if s == seed@ && h == hash@ {
                    assert(q[i as int] == e);
                } else {
                    assert(old_leaves.contains_key(s) && old_leaves[s].contains(h));
                    let k = choose|k: int| 0 <= k < old_queue.len() && (#[trigger] old_queue[k]).0 == s && old_queue[k].1 == h;
                    let k1 = if k < i { k } else { k + 1 };
                    assert(q[k1] == old_queue[k]);
                }
            }
        }
    }

    /// Takes `hash` out from under `seed`; a seed left with nothing goes too.
    pub fn delete(&mut self, seed: &crate::Hash, hash: &crate::Hash)
        requires
            old(self).wf(),
        ensures
            final(self).wf(),
            final(self).leaves() == without_leaf(old(self).leaves(), seed@, hash@),
            final(self).queue() == old(self).queue(),
    {
        self.delete_popped(seed, hash);
    }

    /// Pops expired entries off the queue, at most `PRUNE_LIMIT` of them, and
    /// takes each one's leaf out of the tree; stops at the first entry that
    /// has not expired by `now`. Returns how many were popped.
    pub fn prune(&mut self, now: u64) -> (r: usize)
        requires
            old(self).wf(),
        ensures
            final(self).wf(),
            prune_stops_at(old(self).queue(), now, r as nat),
            final(self).queue() == old(self).queue().take(old(self).queue().len() - r),
            final(self).leaves() == without_popped(old(self).leaves(), old(self).queue(), r as nat),
    {
        let ghost q0 = self.queue();
        let ghost m0 = self.leaves();
        let mut pruned: usize = 0;
        assert(q0.take(q0.len() as int) =~= q0);
        while pruned < PRUNE_LIMIT && self.expiration.len() > 0
            invariant
                self.wf(),
                q0 == old(self).queue(),
                m0 == old(self).leaves(),
                pruned <= PRUNE_LIMIT,
                pruned <= q0.len(),
                self.queue() == q0.take(q0.len() - pruned),
                forall|i: int| q0.len() - pruned <= i < q0.len() ==> (#[trigger] q0[i]).2 <= now,
                self.leaves() == without_popped(m0, q0, pruned as nat),
            decreases PRUNE_LIMIT - pruned,
        {
            assert(self.queue().len() == self.expiration@.len());
            let last = self.expiration.len() - 1;
            if self.expiration[last].expiration > now {
                assert(self.queue()[last as int] == entry_view(self.expiration@[last as int]));
                assert(q0.take(q0.len() - pruned)[last as int] == q0[q0.len() - pruned - 1]);
                return pruned;
            }
            let e = self.expiration.pop().unwrap();
            proof {
                let q = q0.take(q0.len() - pruned);
                assert(entry_view(e) == q.last());
                assert(self.queue() =~= q.drop_last());
                let m = self.leaves();
                assert forall|s: Seq<u8>, h: Seq<u8>| #[trigger] m.contains_key(s) && #[trigger] m[s].contains(h) && (s != e.seed@ || h != e.hash@) implies exists|k: int|
                    0 <= k < self.queue().len() && (#[trigger] self.queue()[k]).0 == s && self.queue()[k].1 == h by {
                    let k = choose|k: int| 0 <= k < q.len() && (#[trigger] q[k]).0 == s && q[k].1 == h;
                    assert(k != q.len() - 1);
                    assert(self.queue()[k] == q[k]);
                }
                lemma_popped_step(m0, q0, pruned as nat);
            }
            self.delete_popped(&e.seed, &e.hash);
            proof {
                assert(q0.take(q0.len() - pruned).drop_last() =~= q0.take(q0.len() - (pruned + 1)));
            }
            pruned = pruned + 1;
        }
        pruned
    }

    /// Takes `hash` out from under `seed`; only the other leaves need queue
    /// entries, so it also serves a leaf whose entry was just popped.
    fn delete_popped(&mut self, seed: &crate::Hash, hash: &crate::Hash)
        requires
            queue_ordered(old(self).queue()),
            forall|s: Seq<u8>| #[trigger] old(self).leaves().contains_key(s) ==> old(self).leaves()[s] != Set::<Seq<u8>>::empty(),
            forall|s: Seq<u8>, h: Seq<u8>|
                #[trigger] old(self).leaves().contains_key(s) && #[trigger] old(self).leaves()[s].contains(h) && (s != seed@ || h != hash@)
                ==> exists|k: int| 0 <= k < old(self).queue().len() && (#[trigger] old(self).queue()[k]).0 == s && old(self).queue()[k].1 == h,
        ensures
            final(self).wf(),
            final(self).leaves() == without_leaf(old(self).leaves(), seed@, hash@),
            final(self).queue() == old(self).queue(),
    {
        let ghost old_leaves = self.leaves();
        let emptied = tree_drop_leaf(&mut self.certified, seed, hash);
        if emptied {
            tree_delete(&mut self.certified, seed);
            assert(self.leaves() =~= old_leaves.remove(seed@));
        }
        proof {
            let m = self.leaves();
            let q = self.queue();
            assert forall|s: Seq<u8>, h: Seq<u8>| #[trigger] m.contains_key(s) && #[trigger] m[s].contains(h) implies exists|k: int|
                0 <= k < q.len() && (#[trigger] q[k]).0 == s && q[k].1 == h by {
                assert(old_leaves.contains_key(s) && old_leaves[s].contains(h));
                if s == seed@ {
                    assert(m[s] == old_leaves[s].remove(hash@));
                }
            }
        }
    }

    /// Certifies `hash` under `seed` until `setting`'s lifetime after `now`,
    /// after a pruning pass at `now`. Returns `hash`.
    pub fn put(&mut self, seed: crate::Hash, hash: crate::Hash, setting: &Setting, now: u64) -> (r: crate::Hash)
        requires
            old(self).wf(),
        ensures
            final(self).wf(),
            r == hash,
            exists|n: nat| prune_stops_at(old(self).queue(), now, n) && #[trigger] final(self).leaves() == with_leaf(
                without_popped(old(self).leaves(), old(self).queue(), n),
                seed@,
                hash@,
            ) && final(self).queue().to_multiset() == old(self).queue().take(
                old(self).queue().len() - n,
            ).to_multiset().insert((seed@, hash@, after_minutes(now, setting.spec_expiration_minute()))),
    {
        let n = self.prune(now);
        let expiration = setting.expiration(now);
        self.add(seed, hash, expiration);
        hash
    }

    /// Certifies every digest of `hashes` under `seed`, all with one
    /// expiration, after a single pruning pass at `now`. Returns `hashes`.
    pub fn puts(&mut self, seed: crate::Hash, hashes: &Vec<crate::Hash>, setting: &Setting, now: u64) -> (r: Vec<crate::Hash>)
        requires
            old(self).wf(),
        ensures
            final(self).wf(),
            r@ == hashes@,
            exists|n: nat| prune_stops_at(old(self).queue(), now, n) && #[trigger] final(self).leaves() == with_leaves(
                without_popped(old(self).leaves(), old(self).queue(), n),
                seed@,
                hashes@.map_values(|h: crate::Hash| h@),
            ) && final(self).queue().to_multiset() == old(self).queue().take(old(self).queue().len() - n).to_multiset().add(
                queue_entries(seed@, hashes@.map_values(|h: crate::Hash| h@), after_minutes(now, setting.spec_expiration_minute())).to_multiset(),
            ),
    {
        broadcast use vstd::seq_lib::group_to_multiset_ensures;

        let n = self.prune(now);
        let ghost start = self.leaves();
        let ghost start_q = self.queue();
        let expiration = setting.expiration(now);
        let mut out: Vec<crate::Hash> = Vec::new();
        let mut i: usize = 0;
        while i < hashes.len()
            invariant
                self.wf(),
                i <= hashes@.len(),
                out@ == hashes@.take(i as int),
                expiration == after_minutes(now, setting.spec_expiration_minute()),
                self.leaves() == with_leaves(start, seed@, hashes@.take(i as int).map_values(|h: crate::Hash| h@)),
                self.queue().to_multiset() == start_q.to_multiset().add(
                    queue_entries(seed@, hashes@.take(i as int).map_values(|h: crate::Hash| h@), expiration).to_multiset(),
                ),
            decreases hashes@.len() - i,
        {
            let h = hashes[i];
            self.add(seed, h, expiration);
            out.push(h);
            proof {
                let hs = hashes@.take(i as int + 1).map_values(|h: crate::Hash| h@);
                let hs0 = hashes@.take(i as int).map_values(|h: crate::Hash| h@);
                assert(hs.drop_last() =~= hs0);
                assert(out@ =~= hashes@.take(i as int + 1));
                assert(queue_entries(seed@, hs, expiration) =~= queue_entries(seed@, hs0, expiration).push((seed@, h@, expiration)));
                vstd::seq_lib::to_multiset_build(queue_entries(seed@, hs0, expiration), (seed@, h@, expiration));
                assert(self.queue().to_multiset() =~= start_q.to_multiset().add(
                    queue_entries(seed@, hs, expiration).to_multiset(),
                ));
            }
            i = i + 1;
        }
        assert(hashes@.take(hashes@.len() as int) =~= hashes@);
        out
    }

    /// The Merkle root of the certified tree.
    pub fn root_hash(&self) -> (r: crate::Hash)
        ensures
            r@ == self.root(),
            self.leaves().dom() == Set::<Seq<u8>>::empty() ==> r@ == empty_root(),
    {
        tree_root(&self.certified)
    }

    /// A proof that `delegation_hash` is certified under `seed_hash`, with the
    /// root hash it leads to, which is the root of the tree; `None` where the
    /// digest is not certified there.
    pub fn witness(&self, seed_hash: &crate::Hash, delegation_hash: &crate::Hash) -> (r: Option<(HashTree<'_>, crate::Hash)>)
        ensures
            r is Some <==> certifies(self.leaves(), seed_hash@, delegation_hash@),
            r matches Some((_, root)) ==> root@ == self.root(),
    {
        if !self.contains(seed_hash, delegation_hash) {
            return None;
        }
        Some(tree_witness(&self.certified, seed_hash, delegation_hash))
    }
}

proof fn lemma_popped_step(m: Map<Seq<u8>, Set<Seq<u8>>>, q: Seq<(Seq<u8>, Seq<u8>, u64)>, n: nat)
    requires
        n < q.len(),
    ensures
        without_popped(m, q, n + 1) == without_leaf(
            without_popped(m, q, n),
            q[q.len() - n - 1].0,
            q[q.len() - n - 1].1,
        ),
    decreases n,
{
    let m1 = without_leaf(m, q.last().0, q.last().1);
    let q1 = q.drop_last();
    assert(without_popped(m, q, n + 1) == without_popped(m1, q1, n));
    if n > 0 {
        lemma_popped_step(m1, q1, (n - 1) as nat);
        assert(q1[q1.len() - (n - 1) - 1] == q[q.len() - n - 1]);
        assert(without_popped(m, q, n) == without_popped(m1, q1, (n - 1) as nat));
    } else {
        assert(without_popped(m1, q1, 0) == m1);
        assert(without_popped(m, q, 0) == m);
    }
}

/// Whether `hash` is certified under `seed` in the tree `m`.
pub open spec fn certifies(m: Map<Seq<u8>, Set<Seq<u8>>>, seed: Seq<u8>, hash: Seq<u8>) -> bool {
    m.contains_key(seed) && m[seed].contains(hash)
}

/// A delegation digest just certified under a seed is found there.
pub proof fn lemma_stored_is_certified(m: Map<Seq<u8>, Set<Seq<u8>>>, seed: Seq<u8>, hash: Seq<u8>)
    ensures
        certifies(with_leaf(m, seed, hash), seed, hash),
{
}

proof fn lemma_without_never_adds(
    m: Map<Seq<u8>, Set<Seq<u8>>>,
    s: Seq<u8>,
    h: Seq<u8>,
    seed: Seq<u8>,
    hash: Seq<u8>,
)
    requires
        !certifies(m, seed, hash),
    ensures
        !certifies(without_leaf(m, s, h), seed, hash),
{
}

proof fn lemma_popped_stays_out(m: Map<Seq<u8>, Set<Seq<u8>>>, q: Seq<(Seq<u8>, Seq<u8>, u64)>, n: nat, seed: Seq<u8>, hash: Seq<u8>)
    requires
        !certifies(m, seed, hash),
    ensures
        !certifies(without_popped(m, q, n), seed, hash),
    decreases n,
{
    if n > 0 && q.len() > 0 {
        lemma_without_never_adds(m, q.last().0, q.last().1, seed, hash);
        lemma_popped_stays_out(without_leaf(m, q.last().0, q.last().1), q.drop_last(), (n - 1) as nat, seed, hash);
    }
}

/// Once a pruning pass pops a queue entry, the delegation digest it names is
/// no longer certified under its seed.
pub proof fn lemma_pruned_is_not_certified(
    m: Map<Seq<u8>, Set<Seq<u8>>>,
    q: Seq<(Seq<u8>, Seq<u8>, u64)>,
    n: nat,
    i: int,
)
    requires
        n <= q.len(),
        q.len() - n <= i < q.len(),
    ensures
        !certifies(without_popped(m, q, n), q[i].0, q[i].1),
    decreases n,
{
    let m1 = without_leaf(m, q.last().0, q.last().1);
    if i == q.len() - 1 {
        assert(!certifies(m1, q[i].0, q[i].1));
        lemma_popped_stays_out(m1, q.drop_last(), (n - 1) as nat, q[i].0, q[i].1);
    } else {
        lemma_pruned_is_not_certified(m1, q.drop_last(), (n - 1) as nat, i);
        assert(q.drop_last()[i] == q[i]);
    }
}

} // verus!
