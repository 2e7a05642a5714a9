use siwt::hash::{array, bytes, domain, string, u64 as hash_u64, value, varint_bytes, Value};
use siwt::utils::{now_add_minute, seed};

fn unhex(s: &str) -> Vec<u8> {
    (0..s.len())
        .step_by(2)
        .map(|i| u8::from_str_radix(&s[i..i + 2], 16).unwrap())
        .collect()
}

#[test]
fn varint_small_values_fit_one_byte() {
    assert_eq!(varint_bytes(0), vec![0]);
    assert_eq!(varint_bytes(1), vec![1]);
    assert_eq!(varint_bytes(127), vec![127]);
}

#[test]
fn varint_sets_continuation_bit() {
    assert_eq!(varint_bytes(128), vec![0x80, 0x01]);
    assert_eq!(varint_bytes(300), vec![0xac, 0x02]);
}

#[test]
fn varint_of_largest_integer_takes_ten_bytes() {
    assert_eq!(
        varint_bytes(u64::MAX),
        vec![0xff, 0xff, 0xff, 0xff, 0xff, 0xff, 0xff, 0xff, 0xff, 0x01]
    );
}

#[test]
fn bytes_is_sha256() {
    assert_eq!(
        bytes(b"abc").to_vec(),
        unhex("ba7816bf8f01cfea414140de5dae2223b00361a396177a9cb410ff61f20015ad")
    );
}

#[test]
fn string_hashes_its_utf8_bytes() {
    assert_eq!(string("abc"), bytes(b"abc"));
}

#[test]
fn integer_is_hashed_by_its_varint() {
    assert_eq!(
        hash_u64(300).to_vec(),
        unhex("6ab5d0d823d6c395820281f3293fd1b68db260f3a861997cb2d3a42a2c9bc16a")
    );
    assert_eq!(hash_u64(300), bytes(&[0xac, 0x02]));
}

#[test]
fn map_hash_exact_value() {
    let fields = vec![
        ("a".to_string(), Value::U64(1)),
        ("b".to_string(), Value::U64(2)),
    ];
    assert_eq!(
        siwt::hash::map(&fields).to_vec(),
        unhex("3f7904d1e68700cbc3126da1b22c23b9ca625a3fdff4493e50feaad69162be74")
    );
}

#[test]
fn map_hash_ignores_field_order() {
    let ab = vec![
        ("a".to_string(), Value::U64(1)),
        ("b".to_string(), Value::U64(2)),
    ];
    let ba = vec![
        ("b".to_string(), Value::U64(2)),
        ("a".to_string(), Value::U64(1)),
    ];
    assert_eq!(siwt::hash::map(&ab), siwt::hash::map(&ba));
}

#[test]
fn array_hash_depends_on_order() {
    let xy = vec![Value::U64(1), Value::U64(2)];
    let yx = vec![Value::U64(2), Value::U64(1)];
    assert_ne!(array(&xy), array(&yx));
}

#[test]
fn array_hash_is_digest_of_element_digests() {
    let elements = vec![Value::Bytes(vec![1, 2]), Value::String("x".to_string())];
    let mut joined = bytes(&[1, 2]).to_vec();
    joined.extend_from_slice(&string("x"));
    assert_eq!(array(&elements), bytes(&joined));
    assert_eq!(value(&Value::Array(elements)), bytes(&joined));
}

#[test]
fn empty_map_hashes_empty_input() {
    assert_eq!(siwt::hash::map(&Vec::new()), bytes(&[]));
}

#[test]
fn domain_prefixes_separator_length() {
    let inner = unhex("3f7904d1e68700cbc3126da1b22c23b9ca625a3fdff4493e50feaad69162be74");
    assert_eq!(
        domain(b"ic-request-auth-delegation", &inner).to_vec(),
        unhex("aa22cd5d7504bf0d3544c7777a40d7df05ebd1effa6f6ce174abb881a11ee6c5")
    );
}

#[test]
fn seed_exact_value() {
    assert_eq!(
        seed("alice").to_vec(),
        unhex("0b8922c1e1391f94e444dfbf07a36c7f4e62806135467ccb6ef4af6bb74f7218")
    );
}

#[test]
fn seed_is_deterministic_and_distinguishes_users() {
    assert_eq!(seed("alice"), seed("alice"));
    assert_ne!(seed("alice"), seed("bob"));
    assert_ne!(seed("alice"), seed("Alice"));
    assert_ne!(seed("alice"), seed(" alice"));
}

#[test]
fn now_add_minute_adds_nanoseconds() {
    assert_eq!(now_add_minute(1_000, 2), 1_000 + 120_000_000_000);
    assert_eq!(now_add_minute(5, 0), 5);
}

#[test]
fn now_add_minute_saturates() {
    assert_eq!(now_add_minute(u64::MAX - 5, 1), u64::MAX);
    assert_eq!(now_add_minute(0, u64::MAX), u64::MAX);
}
