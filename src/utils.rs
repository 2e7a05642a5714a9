//! Clock arithmetic and per-user seed derivation.
use vstd::prelude::*;

use crate::hash::{sha256_of, utf8, varint};

verus! {

/// Nanoseconds in one minute.
pub const NANOS_PER_MINUTE: u64 = 60_000_000_000;

/// `now` plus `minute` minutes in nanoseconds, saturating at `u64::MAX`.
pub open spec fn after_minutes(now: u64, minute: u64) -> u64 {
    let t = now as int + minute as int * NANOS_PER_MINUTE as int;
    if t > u64::MAX as int {
        u64::MAX
    } else {
        t as u64
    }
}

/// What the seed of a user is the digest of: the `varint` length of the
/// user's UTF-8 bytes followed by those bytes.
pub open spec fn seed_input(user: Seq<char>) -> Seq<u8> {
    varint(utf8(user).len()) + utf8(user)
}

/// The seed of a user.
pub open spec fn seed_of(user: Seq<char>) -> Seq<u8> {
    sha256_of(seed_input(user))
}

/// The instant `minute` minutes after `now`, saturating at `u64::MAX`.
pub fn now_add_minute(now: u64, minute: u64) -> (r: u64)
    ensures
        r == after_minutes(now, minute),
{
    let span: u64 = if minute > u64::MAX / NANOS_PER_MINUTE {
        u64::MAX
    } else {
        minute * NANOS_PER_MINUTE
    };
    proof {
        if minute > u64::MAX / NANOS_PER_MINUTE {
            assert(minute as int * NANOS_PER_MINUTE as int > u64::MAX as int) by (nonlinear_arith)
                requires
                    minute > u64::MAX / NANOS_PER_MINUTE,
            ;
        }
    }
    now.saturating_add(span)
}

/// Derives the seed of a user.
pub fn seed(user: &str) -> (r: crate::Hash)
    ensures
        r@ == seed_of(user@),
{
    let raw = user.as_bytes();
    let mut data = crate::hash::varint_bytes(raw.len() as u64);
    let ghost prefix = data@;
    let mut k: usize = 0;
    while k < raw.len()
        invariant
            k <= raw@.len(),
            raw@ == utf8(user@),
            data@ == prefix + raw@.take(k as int),
        decreases raw@.len() - k,
    {
        data.push(raw[k]);
        assert(raw@.take(k as int + 1) =~= raw@.take(k as int).push(raw@[k as int]));
        k = k + 1;
    }
    assert(raw@.take(raw@.len() as int) =~= raw@);
    crate::hash::bytes(data.as_slice())
}

proof fn lemma_varint_len_monotone(a: nat, b: nat)
    requires
        a <= b,
    ensures
        varint(a).len() <= varint(b).len(),
    decreases b,
{
    if a >= 128 {
        lemma_varint_len_monotone(a / 128, b / 128);
    }
}

/// Distinct users feed distinct bytes to the seed digest: the length prefix
/// makes the encoding injective, so two users can share a seed only through a
/// collision of the digest itself.
pub proof fn lemma_seed_input_injective(u1: Seq<char>, u2: Seq<char>)
    requires
        u1 != u2,
    ensures
        seed_input(u1) != seed_input(u2),
{
    let b1 = utf8(u1);
    let b2 = utf8(u2);
    vstd::utf8::encode_utf8_decode_utf8(u1);
    vstd::utf8::encode_utf8_decode_utf8(u2);
    if seed_input(u1) == seed_input(u2) {
        let v1 = varint(b1.len());
        let v2 = varint(b2.len());
        if b1.len() <= b2.len() {
            lemma_varint_len_monotone(b1.len(), b2.len());
        } else {
            lemma_varint_len_monotone(b2.len(), b1.len());
        }
        assert(seed_input(u1).len() == v1.len() + b1.len());
        assert(seed_input(u2).len() == v2.len() + b2.len());
        assert(b1.len() == b2.len());
        assert(b1 =~= seed_input(u1).skip(v1.len() as int));
        assert(b2 =~= seed_input(u2).skip(v2.len() as int));
    }
}

/// The text without the white space at either end.
pub open spec fn trimmed_of(s: Seq<char>) -> Seq<char> {
    trim_end_of(trim_start_of(s))
}

/// Whether `c` has the Unicode White_Space property.
pub open spec fn is_white_space(c: char) -> bool {
    let u = c as u32;
    (0x9 <= u <= 0xd) || u == 0x20 || u == 0x85 || u == 0xa0 || u == 0x1680 || (0x2000 <= u <= 0x200a)
        || u == 0x2028 || u == 0x2029 || u == 0x202f || u == 0x205f || u == 0x3000
}

/// The text without its leading white space.
pub open spec fn trim_start_of(s: Seq<char>) -> Seq<char>
    decreases s.len(),
{
    if s.len() > 0 && is_white_space(s[0]) {
        trim_start_of(s.drop_first())
    } else {
        s
    }
}

/// The text without its trailing white space.
pub open spec fn trim_end_of(s: Seq<char>) -> Seq<char>
    decreases s.len(),
{
    if s.len() > 0 && is_white_space(s.last()) {
        trim_end_of(s.drop_last())
    } else {
        s
    }
}

proof fn lemma_trim_start_shape(s: Seq<char>)
    ensures
        trim_start_of(s).len() == 0 || !is_white_space(trim_start_of(s)[0]),
    decreases s.len(),
{
    if s.len() > 0 && is_white_space(s[0]) {
        lemma_trim_start_shape(s.drop_first());
    }
}

proof fn lemma_trim_end_shape(s: Seq<char>)
    ensures
        trim_end_of(s).len() == 0 || !is_white_space(trim_end_of(s).last()),
        s.len() > 0 && !is_white_space(s[0]) ==> trim_end_of(s).len() > 0 && trim_end_of(s)[0] == s[0],
    decreases s.len(),
{
    if s.len() > 0 && is_white_space(s.last()) {
        lemma_trim_end_shape(s.drop_last());
    }
}

/// Trimming a trimmed text changes nothing.
pub proof fn lemma_trim_idempotent(s: Seq<char>)
    ensures
        trimmed_of(trimmed_of(s)) == trimmed_of(s),
{
    let t = trimmed_of(s);
    lemma_trim_start_shape(s);
    lemma_trim_end_shape(trim_start_of(s));
    assert(trim_start_of(t) == t);
    assert(trim_end_of(t) == t);
}

/// Relies on str::trim: the text without leading and trailing white space,
/// white space being the chars that `char::is_whitespace` accepts (the
/// Unicode White_Space property).
#[verifier::external_body]
pub(crate) fn trim(s: &str) -> (r: &str)
    ensures
        r@ == trimmed_of(s@),
{
    s.trim()
}

/// A vector holding the bytes of `data`.
pub fn copy_bytes(data: &[u8]) -> (r: Vec<u8>)
    ensures
        r@ == data@,
{
    let mut out: Vec<u8> = Vec::new();
    crate::messages::append_bytes(&mut out, data);
    assert(out@ =~= data@);
    out
}

} // verus!
