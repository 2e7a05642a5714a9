//! A table keyed by 32-byte digests whose entries carry an expiration time.
use vstd::prelude::*;

verus! {

/// An entry that stops being valid at a point in time, in nanoseconds.
pub trait Expiring: View {
    spec fn expires_at(v: Self::V) -> u64;

    fn expiration(&self) -> (r: u64)
        ensures
            r == Self::expires_at(self@),
    ;
}

/// Entries keyed by digest, each key present at most once.
pub struct Table<V> {
    entries: Vec<(crate::Hash, V)>,
}

/// The keys of `s` are pairwise distinct.
pub open spec fn distinct_keys<V>(s: Seq<(crate::Hash, V)>) -> bool {
    forall|i: int, j: int| 0 <= i < s.len() && 0 <= j < s.len() && i != j ==> s[i].0@ != s[j].0@
}

/// Whether `k` is one of the keys of `s`.
pub open spec fn has_key<V>(s: Seq<(crate::Hash, V)>, k: Seq<u8>) -> bool {
    exists|i: int| 0 <= i < s.len() && #[trigger] s[i].0@ == k
}

/// The map that a list of keyed entries stands for.
pub closed spec fn entries_map<V: View>(s: Seq<(crate::Hash, V)>) -> Map<Seq<u8>, V::V> {
    Map::new(
        |k: Seq<u8>| has_key(s, k),
        |k: Seq<u8>| s[choose|i: int| 0 <= i < s.len() && #[trigger] s[i].0@ == k].1@,
    )
}

proof fn lemma_lookup<V: View>(s: Seq<(crate::Hash, V)>, i: int)
    requires
        distinct_keys(s),
        0 <= i < s.len(),
    ensures
        entries_map(s).contains_key(s[i].0@),
        entries_map(s)[s[i].0@] == s[i].1@,
{
    let k = s[i].0@;
    assert(s[i].0@ == k);
    assert(has_key(s, k));
    let j = choose|j: int| 0 <= j < s.len() && #[trigger] s[j].0@ == k;
    assert(j == i);
}

impl<V: View> View for Table<V> {
    type V = Map<Seq<u8>, V::V>;

    closed spec fn view(&self) -> Map<Seq<u8>, V::V> {
        entries_map(self.entries@)
    }
}

impl<V: View> Table<V> {
    /// No key appears twice.
    pub closed spec fn wf(&self) -> bool {
        distinct_keys(self.entries@)
    }

    /// An empty table.
    pub fn new() -> (r: Table<V>)
        ensures
            r.wf(),
            r@ == Map::<Seq<u8>, V::V>::empty(),
    {
        let r = Table { entries: Vec::new() };
        assert(r@ =~= Map::<Seq<u8>, V::V>::empty());
        r
    }

    fn find(&self, key: &crate::Hash) -> (r: Option<usize>)
        requires
            self.wf(),
        ensures
            r is None ==> !self@.contains_key(key@),
            r matches Some(i) ==> i < self.entries@.len() && self.entries@[i as int].0@ == key@,
    {
        let mut i: usize = 0;
        while i < self.entries.len()
            invariant
                i <= self.entries@.len(),
                forall|j: int| 0 <= j < i ==> self.entries@[j].0@ != key@,
            decreases self.entries@.len() - i,
        {
            if same_key(&self.entries[i].0, key) {
                return Some(i);
            }
            i = i + 1;
        }
        None
    }

    /// The entry under `key`, if any.
    pub fn get(&self, key: &crate::Hash) -> (r: Option<&V>)
        requires
            self.wf(),
        ensures
            r is Some <==> self@.contains_key(key@),
            r matches Some(v) ==> v@ == self@[key@],
    {
        match self.find(key) {
            Some(i) => {
                proof {
                    lemma_lookup(self.entries@, i as int);
                }
                Some(&self.entries[i].1)
            },
            None => None,
        }
    }

    /// Stores `value` under `key`, handing back what was there before.
    pub fn insert(&mut self, key: crate::Hash, value: V) -> (r: Option<V>)
        requires
            old(self).wf(),
        ensures
            final(self).wf(),
            final(self)@ == old(self)@.insert(key@, value@),
            r is Some <==> old(self)@.contains_key(key@),
            r matches Some(v) ==> v@ == old(self)@[key@],
    {
        let ghost old_map = self@;
        let ghost vv = value@;
        match self.find(&key) {
            Some(i) => {
                proof {
                    lemma_lookup(self.entries@, i as int);
                }
                let ghost s0 = self.entries@;
                let prev = self.entries.remove(i);
                self.entries.insert(i, (key, value));
                proof {
                    let s = self.entries@;
                    assert(s =~= s0.update(i as int, (key, value)));
                    assert(distinct_keys(s));
                    assert forall|k: Seq<u8>| #[trigger] self@.contains_key(k) == old_map.insert(key@, vv).contains_key(k) by {
                        if has_key(s, k) {
                            let j = choose|j: int| 0 <= j < s.len() && #[trigger] s[j].0@ == k;
                            if j != i {
                                assert(s0[j].0@ == k);
                            }
                        }
                        if has_key(s0, k) {
                            let j = choose|j: int| 0 <= j < s0.len() && #[trigger] s0[j].0@ == k;
                            assert(s[j].0@ == k);
                        }
                    }
                    assert forall|k: Seq<u8>| #[trigger] self@.contains_key(k) implies self@[k] == old_map.insert(key@, vv)[k] by {
                        let j = choose|j: int| 0 <= j < s.len() && #[trigger] s[j].0@ == k;
                        lemma_lookup(self.entries@, j);
                        if j != i {
                            assert(s0[j] == s[j]);
                        }
                    }
                    assert(self@ =~= old_map.insert(key@, vv));
                }
                Some(prev.1)
            },
            None => {
                let ghost s0 = self.entries@;
                self.entries.push((key, value));
                proof {
                    let s = self.entries@;
                    assert(s =~= s0.push((key, value)));
                    assert(distinct_keys(s)) by {
                        assert forall|j: int| 0 <= j < s0.len() implies s0[j].0@ != key@ by {
                            if s0[j].0@ == key@ {
                                assert(has_key(s0, key@));
                            }
                        }
                    }
                    assert forall|k: Seq<u8>| #[trigger] self@.contains_key(k) == old_map.insert(key@, vv).contains_key(k) by {
                        if has_key(s, k) {
                            let j = choose|j: int| 0 <= j < s.len() && #[trigger] s[j].0@ == k;
                            if j < s0.len() {
                                assert(s0[j].0@ == k);
                            }
                        }
                        if has_key(s0, k) {
                            let j = choose|j: int| 0 <= j < s0.len() && #[trigger] s0[j].0@ == k;
                            assert(s[j].0@ == k);
                        }
                        if k == key@ {
                            assert(s[s0.len() as int].0@ == k);
                        }
                    }
                    assert forall|k: Seq<u8>| #[trigger] self@.contains_key(k) implies self@[k] == old_map.insert(key@, vv)[k] by {
                        let j = choose|j: int| 0 <= j < s.len() && #[trigger] s[j].0@ == k;
                        lemma_lookup(self.entries@, j);
                        if j < s0.len() {
                            assert(s0[j] == s[j]);
                        }
                    }
                    assert(self@ =~= old_map.insert(key@, vv));
                }
                None
            },
        }
    }

    /// Takes the entry under `key` out of the table.
    pub fn remove(&mut self, key: &crate::Hash) -> (r: Option<V>)
        requires
            old(self).wf(),
        ensures
            final(self).wf(),
            final(self)@ == old(self)@.remove(key@),
            r is Some <==> old(self)@.contains_key(key@),
            r matches Some(v) ==> v@ == old(self)@[key@],
    {
        let ghost old_map = self@;
        match self.find(key) {
            Some(i) => {
                proof {
                    lemma_lookup(self.entries@, i as int);
                }
                let ghost s0 = self.entries@;
                let prev = self.entries.remove(i);
                proof {
                    let s = self.entries@;
                    assert(s =~= s0.remove(i as int));
                    assert forall|k: Seq<u8>| #[trigger] self@.contains_key(k) == old_map.remove(key@).contains_key(k) by {
                        if has_key(s, k) {
                            let j = choose|j: int| 0 <= j < s.len() && #[trigger] s[j].0@ == k;
                            let j0 = if j < i { j } else { j + 1 };
                            assert(s0[j0].0@ == k);
                        }
                        if has_key(s0, k) && k != key@ {
                            let j = choose|j: int| 0 <= j < s0.len() && #[trigger] s0[j].0@ == k;
                            let j1 = if j < i { j } else { j - 1 };
                            assert(s[j1].0@ == k);
                        }
                    }
                    assert forall|k: Seq<u8>| #[trigger] self@.contains_key(k) implies self@[k] == old_map.remove(key@)[k] by {
                        let j = choose|j: int| 0 <= j < s.len() && #[trigger] s[j].0@ == k;
                        lemma_lookup(self.entries@, j);
                        let j0 = if j < i { j } else { j + 1 };
                        lemma_lookup(s0, j0);
                    }
                    assert(self@ =~= old_map.remove(key@));
                }
                Some(prev.1)
            },
            None => {
                assert(self@ =~= old_map.remove(key@));
                None
            },
        }
    }
}

impl<V: Expiring> Table<V> {
    /// Drops every entry whose expiration is not after `now`.
    pub fn prune(&mut self, now: u64)
        requires
            old(self).wf(),
        ensures
            final(self).wf(),
            final(self)@ == old(self)@.restrict(
                old(self)@.dom().filter(|k: Seq<u8>| V::expires_at(old(self)@[k]) > now),
            ),
    {
        let ghost old_map = self@;
        let ghost s0 = self.entries@;
        let mut kept: Vec<(crate::Hash, V)> = Vec::new();
        let mut taken = self.entries.split_off(0);
        assert(taken@ =~= s0);
        // Walk from the back so that `pop` visits every entry once.
        let ghost target = old_map.restrict(
            old_map.dom().filter(|k: Seq<u8>| V::expires_at(old_map[k]) > now),
        );
        while taken.len() > 0
            invariant
                distinct_keys(s0),
                taken@.len() <= s0.len(),
                taken@ == s0.take(taken@.len() as int),
                forall|j: int| 0 <= j < kept@.len() ==> exists|m: int| taken@.len() <= m < s0.len() && s0[m] == #[trigger] kept@[j],
                distinct_keys(kept@),
                forall|m: int| taken@.len() <= m < s0.len() && V::expires_at(#[trigger] s0[m].1@) > now ==> has_key(kept@, s0[m].0@),
                forall|j: int| 0 <= j < kept@.len() ==> V::expires_at(#[trigger] kept@[j].1@) > now,
            decreases taken@.len(),
        {
            let ghost n = taken@.len();
            let e = taken.pop().unwrap();
            assert(e == s0[n - 1]);
            if e.1.expiration() > now {
                let ghost k0 = kept@;
                kept.push(e);
                proof {
                    assert forall|j: int| 0 <= j < kept@.len() implies exists|m: int| taken@.len() <= m < s0.len() && s0[m] == #[trigger] kept@[j] by {
                        if j < k0.len() {
                            assert(kept@[j] == k0[j]);
                        } else {
                            assert(s0[n - 1] == kept@[j]);
                        }
                    }
                    assert forall|a: int, b: int| 0 <= a < kept@.len() && 0 <= b < kept@.len() && a != b implies kept@[a].0@ != kept@[b].0@ by {
                        if a < k0.len() && b < k0.len() {
                            assert(kept@[a] == k0[a] && kept@[b] == k0[b]);
                        } else if a < k0.len() {
                            let m = choose|m: int| n <= m < s0.len() && s0[m] == #[trigger] k0[a];
                            assert(kept@[a] == s0[m]);
                        } else {
                            let m = choose|m: int| n <= m < s0.len() && s0[m] == #[trigger] k0[b];
                            assert(kept@[b] == s0[m]);
                        }
                    }
                    assert forall|m: int| taken@.len() <= m < s0.len() && V::expires_at(#[trigger] s0[m].1@) > now implies has_key(kept@, s0[m].0@) by {
                        if m == n - 1 {
                            assert(kept@[k0.len() as int].0@ == s0[m].0@);
                        } else {
                            let j = choose|j: int| 0 <= j < k0.len() && #[trigger] k0[j].0@ == s0[m].0@;
                            assert(kept@[j].0@ == s0[m].0@);
                        }
                    }
                    assert forall|j: int| 0 <= j < kept@.len() implies V::expires_at(#[trigger] kept@[j].1@) > now by {
                        if j < k0.len() {
                            assert(kept@[j] == k0[j]);
                        }
                    }
                }
            }
            assert(taken@ =~= s0.take(taken@.len() as int));
        }
        self.entries = kept;
        proof {
            let s = self.entries@;
            assert forall|k: Seq<u8>| #[trigger] self@.contains_key(k) == target.contains_key(k) by {
                if has_key(s, k) {
                    let j = choose|j: int| 0 <= j < s.len() && #[trigger] s[j].0@ == k;
                    let m = choose|m: int| 0 <= m < s0.len() && s0[m] == #[trigger] s[j];
                    lemma_lookup(s0, m);
                }
                if target.contains_key(k) {
                    let m = choose|m: int| 0 <= m < s0.len() && #[trigger] s0[m].0@ == k;
                    lemma_lookup(s0, m);
                }
            }
            assert forall|k: Seq<u8>| #[trigger] self@.contains_key(k) implies self@[k] == target[k] by {
                let j = choose|j: int| 0 <= j < s.len() && #[trigger] s[j].0@ == k;
                lemma_lookup(self.entries@, j);
                let m = choose|m: int| 0 <= m < s0.len() && s0[m] == #[trigger] s[j];
                lemma_lookup(s0, m);
            }
            assert(self@ =~= target);
        }
    }
}

/// Whether two digests are equal.
pub fn same_key(a: &crate::Hash, b: &crate::Hash) -> (r: bool)
    ensures
        r == (a@ == b@),
{
    let mut i: usize = 0;
    while i < 32
        invariant
            i <= 32,
            forall|j: int| 0 <= j < i ==> a@[j] == b@[j],
        decreases 32 - i,
    {
        if a[i] != b[i] {
            return false;
        }
        i = i + 1;
    }
    assert(a@ =~= b@);
    true
}

} // verus!
