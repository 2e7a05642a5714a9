//! Canonical, order-independent hashing of typed values into 32-byte digests.
use vstd::prelude::*;
use vstd::relations::{sorted_by, total_ordering};

verus! {

broadcast use vstd::std_specs::vec::axiom_vec_index_decreases;

/// What SHA-256 yields on the given bytes.
pub uninterp spec fn sha256_of(data: Seq<u8>) -> Seq<u8>;

/// Relies on sha2::Sha256::digest: the 256-bit SHA-2 digest of the bytes.
#[verifier::external_body]
fn sha256(data: &[u8]) -> (r: crate::Hash)
    ensures
        r@ == sha256_of(data@),
{
    <sha2::Sha256 as sha2::Digest>::digest(data).into()
}

/// A value that can be hashed canonically.
pub enum Value {
    Bytes(Vec<u8>),
    String(String),
    U64(u64),
    Array(Vec<Value>),
}

/// The UTF-8 bytes of a text.
pub open spec fn utf8(s: Seq<char>) -> Seq<u8> {
    vstd::utf8::encode_utf8(s)
}

/// Little-endian base-128 encoding of `n`: seven bits per byte, the high bit
/// set on every byte but the last; always the shortest such encoding.
pub open spec fn varint(n: nat) -> Seq<u8>
    decreases n,
{
    if n < 128 {
        seq![n as u8]
    } else {
        seq![((n % 128) + 128) as u8] + varint(n / 128)
    }
}

/// The digest of a value: strings and byte strings by their bytes, integers by
/// their `varint` encoding, arrays by the digests of their elements in order.
pub open spec fn value_hash(v: Value) -> Seq<u8>
    decreases v, 1nat, 0nat,
{
    match v {
        Value::Bytes(b) => sha256_of(b@),
        Value::String(s) => sha256_of(utf8(s@)),
        Value::U64(n) => sha256_of(varint(n as nat)),
        Value::Array(a) => sha256_of(element_digests(v, a@.len())),
    }
}

/// The digests of the first `n` elements of an array value, concatenated.
pub open spec fn element_digests(v: Value, n: nat) -> Seq<u8>
    decreases v, 0nat, n,
{
    match v {
        Value::Array(a) => if n == 0 || n > a@.len() {
            Seq::empty()
        } else {
            element_digests(v, (n - 1) as nat) + value_hash(a[n - 1])
        },
        _ => Seq::empty(),
    }
}

/// The digest of a text.
pub open spec fn string_hash(s: Seq<char>) -> Seq<u8> {
    sha256_of(utf8(s))
}

/// The 64 bytes that stand for one field of a map: key digest, then value digest.
pub open spec fn pair_hash(key: Seq<char>, val: Value) -> Seq<u8> {
    string_hash(key) + value_hash(val)
}

/// Lexicographic order on byte strings, a prefix coming first.
pub open spec fn lex_le(a: Seq<u8>, b: Seq<u8>) -> bool
    decreases a.len(),
{
    if a.len() == 0 {
        true
    } else if b.len() == 0 {
        false
    } else if a[0] != b[0] {
        a[0] < b[0]
    } else {
        lex_le(a.drop_first(), b.drop_first())
    }
}

/// `lex_le` as a relation.
pub open spec fn lex_order() -> spec_fn(Seq<u8>, Seq<u8>) -> bool {
    |a: Seq<u8>, b: Seq<u8>| lex_le(a, b)
}

/// The field digests of a map, one per field, in the order given.
pub open spec fn pair_hashes(fields: Seq<(String, Value)>) -> Seq<Seq<u8>> {
    fields.map_values(|f: (String, Value)| pair_hash(f.0@, f.1))
}

/// The digest of a map given by its field digests: sorted, concatenated and hashed.
pub open spec fn map_hash_of_pairs(pairs: Seq<Seq<u8>>) -> Seq<u8> {
    sha256_of(pairs.sort_by(lex_order()).flatten())
}

/// The digest of a map: its field digests sorted, concatenated and hashed.
pub open spec fn map_hash(fields: Seq<(String, Value)>) -> Seq<u8> {
    map_hash_of_pairs(pair_hashes(fields))
}

/// The digest of `bytes` under a domain separator: the separator's length as
/// one byte, the separator, then the bytes.
pub open spec fn domain_hash(sep: Seq<u8>, bytes: Seq<u8>) -> Seq<u8> {
    sha256_of(seq![sep.len() as u8] + sep + bytes)
}

/// Hashes a byte string.
pub fn bytes(value: &[u8]) -> (r: crate::Hash)
    ensures
        r@ == sha256_of(value@),
{
    sha256(value)
}

/// Hashes a text by its UTF-8 bytes.
pub fn string(value: &str) -> (r: crate::Hash)
    ensures
        r@ == string_hash(value@),
{
    bytes(value.as_bytes())
}

/// The `varint` encoding of a 64-bit integer.
pub fn varint_bytes(value: u64) -> (r: Vec<u8>)
    ensures
        r@ == varint(value as nat),
{
    let mut out: Vec<u8> = Vec::new();
    let mut n: u64 = value;
    loop
        invariant
            varint(value as nat) == out@ + varint(n as nat),
        decreases n,
    {
        let byte: u8 = (n & 0x7f) as u8;
        let rest: u64 = n >> 7;
        assert(n & 0x7f == n % 128 && n >> 7 == n / 128) by (bit_vector);
        if rest == 0 {
            assert(varint(n as nat) == seq![n as u8]);
            out.push(byte);
            return out;
        }
        let marked: u8 = byte | 0x80;
        assert(byte < 128 ==> byte | 0x80 == byte + 128) by (bit_vector);
        assert(varint(n as nat) == seq![((n % 128) + 128) as u8] + varint(rest as nat));
        let ghost prev = out@;
        out.push(marked);
        assert(prev + varint(n as nat) == out@ + varint(rest as nat));
        n = rest;
    }
}

/// Hashes a 64-bit integer by its `varint` encoding.
pub fn u64(value: u64) -> (r: crate::Hash)
    ensures
        r@ == sha256_of(varint(value as nat)),
{
    let encoded = varint_bytes(value);
    bytes(encoded.as_slice())
}

/// Hashes the elements of an array one by one and then the concatenation of
/// their digests; order matters.
pub fn array(elements: &Vec<Value>) -> (r: crate::Hash)
    ensures
        r@ == value_hash(Value::Array(*elements)),
    decreases elements,
{
    let ghost whole = Value::Array(*elements);
    let mut acc: Vec<u8> = Vec::new();
    let mut i: usize = 0;
    while i < elements.len()
        invariant
            i <= elements@.len(),
            whole == Value::Array(*elements),
            acc@ == element_digests(whole, i as nat),
        decreases elements@.len() - i,
    {
        let h = value(&elements[i]);
        let ghost before = acc@;
        let mut k: usize = 0;
        while k < 32
            invariant
                k <= 32,
                acc@ == before + h@.take(k as int),
            decreases 32 - k,
        {
            acc.push(h[k]);
            assert(h@.take(k as int + 1) =~= h@.take(k as int).push(h@[k as int]));
            k = k + 1;
        }
        assert(h@.take(32) =~= h@);
        i = i + 1;
    }
    bytes(acc.as_slice())
}

/// Hashes a value.
pub fn value(val: &Value) -> (r: crate::Hash)
    ensures
        r@ == value_hash(*val),
    decreases val,
{
    match val {
        Value::Bytes(b) => bytes(b.as_slice()),
        Value::String(s) => string(s.as_str()),
        Value::U64(n) => u64(*n),
        Value::Array(a) => array(a),
    }
}

pub proof fn lemma_lex_total(a: Seq<u8>, b: Seq<u8>)
    ensures
        lex_le(a, b) || lex_le(b, a),
    decreases a.len(),
{
    if a.len() > 0 && b.len() > 0 && a[0] == b[0] {
        lemma_lex_total(a.drop_first(), b.drop_first());
    }
}

pub proof fn lemma_lex_antisymmetric(a: Seq<u8>, b: Seq<u8>)
    requires
        lex_le(a, b),
        lex_le(b, a),
    ensures
        a == b,
    decreases a.len(),
{
    vstd::seq_lib::to_multiset_len(a);
    vstd::seq_lib::to_multiset_len(b);
    if a.len() == 0 {
        assert(b.len() == 0);
        assert(a =~= b);
    } else {
        lemma_lex_antisymmetric(a.drop_first(), b.drop_first());
        assert(a =~= seq![a[0]] + a.drop_first());
        assert(b =~= seq![b[0]] + b.drop_first());
    }
}

pub proof fn lemma_lex_transitive(a: Seq<u8>, b: Seq<u8>, c: Seq<u8>)
    requires
        lex_le(a, b),
        lex_le(b, c),
    ensures
        lex_le(a, c),
    decreases a.len(),
{
    if a.len() > 0 && b.len() > 0 && c.len() > 0 && a[0] == b[0] && b[0] == c[0] {
        lemma_lex_transitive(a.drop_first(), b.drop_first(), c.drop_first());
    }
}

pub proof fn lemma_lex_reflexive(a: Seq<u8>)
    ensures
        lex_le(a, a),
    decreases a.len(),
{
    if a.len() > 0 {
        lemma_lex_reflexive(a.drop_first());
    }
}

/// `lex_le` is a total order on byte strings.
pub proof fn lemma_lex_total_ordering()
    ensures
        total_ordering(lex_order()),
{
    let leq = lex_order();
    assert forall|a: Seq<u8>| #[trigger] leq(a, a) by {
        lemma_lex_reflexive(a);
    }
    assert forall|a: Seq<u8>, b: Seq<u8>| #[trigger] leq(a, b) && #[trigger] leq(b, a) implies a == b by {
        lemma_lex_antisymmetric(a, b);
    }
    assert forall|a: Seq<u8>, b: Seq<u8>, c: Seq<u8>| #[trigger] leq(a, b) && #[trigger] leq(b, c) implies leq(a, c) by {
        lemma_lex_transitive(a, b, c);
    }
    assert forall|a: Seq<u8>, b: Seq<u8>| #[trigger] leq(a, b) || #[trigger] leq(b, a) by {
        lemma_lex_total(a, b);
    }
}

/// Compares two byte strings in `lex_le` order.
pub fn lex_le_exec(a: &Vec<u8>, b: &Vec<u8>) -> (r: bool)
    ensures
        r == lex_le(a@, b@),
{
    let mut i: usize = 0;
    assert(a@.skip(0) =~= a@ && b@.skip(0) =~= b@);
    while i < a.len() && i < b.len() && a[i] == b[i]
        invariant
            i <= a@.len(),
            i <= b@.len(),
            lex_le(a@, b@) == lex_le(a@.skip(i as int), b@.skip(i as int)),
        decreases a@.len() - i,
    {
        proof {
            let x = a@.skip(i as int);
            let y = b@.skip(i as int);
            assert(x.drop_first() =~= a@.skip(i as int + 1));
            assert(y.drop_first() =~= b@.skip(i as int + 1));
        }
        i = i + 1;
    }
    if i == a.len() {
        true
    } else if i == b.len() {
        false
    } else {
        a[i] < b[i]
    }
}

/// The byte strings of `v`.
pub open spec fn views(v: Seq<Vec<u8>>) -> Seq<Seq<u8>> {
    v.map_values(|e: Vec<u8>| e@)
}

/// Sorts byte strings into `lex_le` order.
fn sort_lex(items: Vec<Vec<u8>>) -> (r: Vec<Vec<u8>>)
    ensures
        sorted_by(views(r@), lex_order()),
        views(r@).to_multiset() == views(items@).to_multiset(),
{
    broadcast use vstd::seq_lib::group_to_multiset_ensures;

    proof {
        lemma_lex_total_ordering();
    }
    let mut out: Vec<Vec<u8>> = Vec::new();
    let mut i: usize = 0;
    while i < items.len()
        invariant
            i <= items@.len(),
            total_ordering(lex_order()),
            sorted_by(views(out@), lex_order()),
            views(out@).to_multiset() == views(items@.take(i as int)).to_multiset(),
        decreases items@.len() - i,
    {
        let x = items[i].clone();
        assert(x@ == items@[i as int]@);
        let mut p: usize = 0;
        while p < out.len() && lex_le_exec(&out[p], &x)
            invariant
                p <= out@.len(),
                forall|j: int| 0 <= j < p ==> lex_le(#[trigger] out@[j]@, x@),
            decreases out@.len() - p,
        {
            p = p + 1;
        }
        let ghost old_views = views(out@);
        out.insert(p, x);
        proof {
            assert(views(out@) =~= old_views.insert(p as int, x@));
            if p < old_views.len() {
                assert(!lex_le(old_views[p as int], x@));
                lemma_lex_total(old_views[p as int], x@);
                assert(lex_order()(x@, old_views[p as int]));
            }
            assert forall|a: int, b: int| 0 <= a < b < views(out@).len() implies #[trigger] lex_order()(
                views(out@)[a],
                views(out@)[b],
            ) by {
                let v = views(out@);
                if b == p {
                    assert(v[a] == old_views[a]);
                } else if a == p {
                    assert(v[b] == old_views[b - 1]);
                    if b - 1 > p {
                        assert(lex_order()(old_views[p as int], old_views[b - 1]));
                    }
                } else {
                    let a0 = if a < p { a } else { a - 1 };
                    let b0 = if b < p { b } else { b - 1 };
                    assert(v[a] == old_views[a0]);
                    assert(v[b] == old_views[b0]);
                    if a0 == b0 {
                        assert(a < p && b > p);
                        assert(lex_order()(old_views[a0], x@));
                        assert(lex_order()(x@, old_views[p as int]));
                    }
                }
            }
            assert(items@.take(i as int + 1) =~= items@.take(i as int).push(items@[i as int]));
            assert(views(items@.take(i as int + 1)) =~= views(items@.take(i as int)).push(x@));
            vstd::seq_lib::to_multiset_insert(old_views, p as int, x@);
            vstd::seq_lib::to_multiset_build(views(items@.take(i as int)), x@);
        }
        i = i + 1;
    }
    assert(items@.take(items@.len() as int) =~= items@);
    out
}

/// The 64 bytes that stand for one map field: the key's digest, then the value's.
pub fn pair(key: &str, val: &Value) -> (r: Vec<u8>)
    ensures
        r@ == pair_hash(key@, *val),
{
    let key_hash = string(key);
    let val_hash = value(val);
    let mut out: Vec<u8> = Vec::new();
    let mut k: usize = 0;
    while k < 64
        invariant
            k <= 64,
            out@ == (key_hash@ + val_hash@).take(k as int),
        decreases 64 - k,
    {
        if k < 32 {
            out.push(key_hash[k]);
        } else {
            out.push(val_hash[k - 32]);
        }
        assert((key_hash@ + val_hash@).take(k as int + 1) =~= out@);
        k = k + 1;
    }
    assert((key_hash@ + val_hash@).take(64) =~= key_hash@ + val_hash@);
    out
}

/// Hashes a map from field names to values, whatever the order of its fields.
pub fn map(fields: &Vec<(String, Value)>) -> (r: crate::Hash)
    ensures
        r@ == map_hash(fields@),
{
    broadcast use vstd::seq_lib::group_to_multiset_ensures;

    let mut hashes: Vec<Vec<u8>> = Vec::new();
    let mut i: usize = 0;
    while i < fields.len()
        invariant
            i <= fields@.len(),
            views(hashes@) =~= pair_hashes(fields@.take(i as int)),
        decreases fields@.len() - i,
    {
        let field = &fields[i];
        let h = pair(field.0.as_str(), &field.1);
        let ghost old_hashes = hashes@;
        hashes.push(h);
        proof {
            assert(fields@.take(i as int + 1) =~= fields@.take(i as int).push(fields@[i as int]));
            assert(views(hashes@) =~= views(old_hashes).push(h@));
            assert(pair_hashes(fields@.take(i as int + 1)) =~= pair_hashes(fields@.take(i as int)).push(h@));
        }
        i = i + 1;
    }
    assert(fields@.take(fields@.len() as int) =~= fields@);
    let sorted = sort_lex(hashes);
    let mut all: Vec<u8> = Vec::new();
    let mut j: usize = 0;
    while j < sorted.len()
        invariant
            j <= sorted@.len(),
            all@ == views(sorted@).take(j as int).flatten(),
        decreases sorted@.len() - j,
    {
        let part = &sorted[j];
        let ghost before = all@;
        let mut k: usize = 0;
        while k < part.len()
            invariant
                k <= part@.len(),
                all@ == before + part@.take(k as int),
            decreases part@.len() - k,
        {
            all.push(part[k]);
            assert(part@.take(k as int + 1) =~= part@.take(k as int).push(part@[k as int]));
            k = k + 1;
        }
        proof {
            let vs = views(sorted@);
            assert(part@.take(part@.len() as int) =~= part@);
            assert(vs.take(j as int + 1) =~= vs.take(j as int).push(vs[j as int]));
            vs.take(j as int).lemma_flatten_push(vs[j as int]);
        }
        j = j + 1;
    }
    proof {
        let vs = views(sorted@);
        let hs = pair_hashes(fields@);
        assert(vs.take(vs.len() as int) =~= vs);
        lemma_lex_total_ordering();
        hs.lemma_sort_by_ensures(lex_order());
        vstd::seq_lib::lemma_sorted_unique(vs, hs.sort_by(lex_order()), lex_order());
    }
    bytes(all.as_slice())
}

/// Hashes `bytes` under the domain separator `sep`.
pub fn domain(sep: &[u8], bytes: &[u8]) -> (r: crate::Hash)
    ensures
        r@ == domain_hash(sep@, bytes@),
{
    let mut data: Vec<u8> = Vec::new();
    data.push(sep.len() as u8);
    let mut k: usize = 0;
    while k < sep.len()
        invariant
            k <= sep@.len(),
            data@ == seq![sep@.len() as u8] + sep@.take(k as int),
        decreases sep@.len() - k,
    {
        data.push(sep[k]);
        assert(sep@.take(k as int + 1) =~= sep@.take(k as int).push(sep@[k as int]));
        k = k + 1;
    }
    assert(sep@.take(sep@.len() as int) =~= sep@);
    let mut m: usize = 0;
    while m < bytes.len()
        invariant
            m <= bytes@.len(),
            data@ == seq![sep@.len() as u8] + sep@ + bytes@.take(m as int),
        decreases bytes@.len() - m,
    {
        data.push(bytes[m]);
        assert(bytes@.take(m as int + 1) =~= bytes@.take(m as int).push(bytes@[m as int]));
        m = m + 1;
    }
    assert(bytes@.take(bytes@.len() as int) =~= bytes@);
    sha256(data.as_slice())
}

proof fn lemma_map_values_multiset<A, B>(a: Seq<A>, b: Seq<A>, f: spec_fn(A) -> B)
    requires
        a.to_multiset() == b.to_multiset(),
    ensures
        a.map_values(f).to_multiset() == b.map_values(f).to_multiset(),
    decreases a.len(),
{
    broadcast use vstd::seq_lib::group_to_multiset_ensures;

    vstd::seq_lib::to_multiset_len(a);
    vstd::seq_lib::to_multiset_len(b);
    if a.len() == 0 {
        assert(b.len() == 0);
        assert(a.map_values(f) =~= Seq::empty());
        assert(b.map_values(f) =~= Seq::empty());
    } else {
        let x = a.last();
        assert(a.to_multiset().contains(x));
        assert(b.to_multiset().contains(x));
        vstd::seq_lib::to_multiset_contains(b, x);
        let j = choose|j: int| 0 <= j < b.len() && b[j] == x;
        let a1 = a.drop_last();
        let b1 = b.remove(j);
        assert(a =~= a1.push(x));
        vstd::seq_lib::to_multiset_build(a1, x);
        vstd::seq_lib::to_multiset_remove(b, j);
        assert(a1.to_multiset() =~= b1.to_multiset());
        lemma_map_values_multiset(a1, b1, f);
        assert(a.map_values(f) =~= a1.map_values(f).push(f(x)));
        assert(b.map_values(f) =~= b1.map_values(f).insert(j, f(x)));
        vstd::seq_lib::to_multiset_build(a1.map_values(f), f(x));
        vstd::seq_lib::to_multiset_insert(b1.map_values(f), j, f(x));
    }
}

/// The digest of a map does not depend on the order in which its fields are
/// listed: two listings of the same fields hash alike.
pub proof fn lemma_map_hash_order_independent(a: Seq<(String, Value)>, b: Seq<(String, Value)>)
    requires
        a.to_multiset() == b.to_multiset(),
    ensures
        map_hash(a) == map_hash(b),
{
    let f = |fd: (String, Value)| pair_hash(fd.0@, fd.1);
    lemma_map_values_multiset(a, b, f);
    assert(pair_hashes(a) == a.map_values(f));
    assert(pair_hashes(b) == b.map_values(f));
    lemma_lex_total_ordering();
    pair_hashes(a).lemma_sort_by_ensures(lex_order());
    pair_hashes(b).lemma_sort_by_ensures(lex_order());
    vstd::seq_lib::lemma_sorted_unique(
        pair_hashes(a).sort_by(lex_order()),
        pair_hashes(b).sort_by(lex_order()),
        lex_order(),
    );
}

} // verus!
