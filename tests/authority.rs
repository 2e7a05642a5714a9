use siwt::auth::{delegation, login, middleware_delegation, middleware_login, prepare};
use siwt::cbor::proof_blob;
use siwt::ckbtc::sub_account;
use siwt::delegation::Delegation;
use siwt::error::AuthError;
use siwt::globals::Global;
use siwt::identity::user_canister_public_key;
use siwt::messages::{Message, Messages};
use siwt::middlewares::{Middleware, Middlewares};
use siwt::payloads::{
    DelegationPayload, LoginPayload, MiddlewareDelegationPayload, MiddlewareLoginPayload,
    PreparePayload,
};
use siwt::principal::{insert_principal, principal_set};
use siwt::setting::Setting;
use siwt::signatures::Signatures;
use siwt::state::State;

const MINUTE: u64 = 60_000_000_000;

fn unhex(s: &str) -> Vec<u8> {
    (0..s.len())
        .step_by(2)
        .map(|i| u8::from_str_radix(&s[i..i + 2], 16).unwrap())
        .collect()
}

fn canister() -> Vec<u8> {
    vec![0, 0, 0, 0, 0, 0, 0, 1, 1, 1]
}

fn caller() -> Vec<u8> {
    vec![7; 29]
}

fn target() -> Vec<u8> {
    vec![0, 0, 0, 0, 0, 0, 0, 2, 1, 1]
}

fn session_key(fill: u8) -> Vec<u8> {
    let mut key = unhex("302a300506032b6570032100");
    key.extend(std::iter::repeat(fill).take(32));
    key
}

fn setting() -> Setting {
    Setting::init(caller(), canister())
}

fn prepare_payload(user: &str, session: Vec<u8>, canisters: Vec<Vec<u8>>) -> PreparePayload {
    PreparePayload { user: user.to_string(), session, canisters }
}

#[test]
fn principal_sets_sort_shorter_first_without_repeats() {
    let set = principal_set(&vec![vec![2, 2], vec![1], vec![1, 9], vec![1]]);
    assert_eq!(set, vec![vec![1], vec![1, 9], vec![2, 2]]);
    let mut grown = set.clone();
    insert_principal(&mut grown, vec![0, 0, 0]);
    insert_principal(&mut grown, vec![1, 9]);
    assert_eq!(grown, vec![vec![1], vec![1, 9], vec![2, 2], vec![0, 0, 0]]);
}

#[test]
fn setting_starts_with_caller_and_canister() {
    let s = setting();
    assert_eq!(s.expiration_minute(), 120);
    assert!(s.authorized(&caller()));
    assert!(!s.authorized(&target()));
    assert_eq!(s.canisters(), &vec![canister()]);
    assert_eq!(s.expiration(10), 10 + 120 * MINUTE);
}

#[test]
fn setting_extends_and_merges() {
    let mut s = setting();
    s.extends(&vec![target()], &vec![vec![5]], vec![9], canister());
    assert!(s.authorized(&target()));
    assert!(s.authorized(&vec![9]));
    assert_eq!(s.canisters(), &vec![vec![5], canister()]);
    let mut other = Setting::init(vec![3], vec![4]);
    other.set_expiration_minute(5);
    other.merge(&mut s, vec![8], canister());
    assert_eq!(s.expiration_minute(), 5);
    assert!(s.authorized(&vec![3]));
    assert!(s.authorized(&vec![8]));
    assert_eq!(s.canisters(), &vec![vec![4], vec![5], canister()]);
}

#[test]
fn unauthorized_caller_is_refused() {
    let s = setting();
    assert_eq!(siwt::auth::authorized(&s, &caller()), Ok(()));
    assert_eq!(siwt::auth::authorized(&s, &target()), Err(AuthError::Unauthorized));
    assert_eq!(AuthError::Unauthorized.message(), "Unauthorized");
}

#[test]
fn challenge_text_names_canisters_by_their_ids() {
    let s = Setting::init(caller(), vec![]);
    let m = Message::new("ann", &[1], &vec![canister()], &s, 0);
    assert_eq!(
        m.text(),
        "User ann want to create delegation for accessing canister(s): aaaaa-aa, rrkah-fqaaa-aaaaa-aaaaq-cai"
    );
}

#[test]
fn synthetic_key_is_exact_der() {
    let key = user_canister_public_key(&canister(), "bob").unwrap();
    assert_eq!(
        key,
        unhex("303c300c060a2b0601040183b8430102032c000a000000000000000101010fb78075c9f16b7770436b0ca4b18bbd4023d0cc531accac024f5ca95483f4d9")
    );
}

#[test]
fn self_authenticating_principal_ends_with_tag() {
    let d = Delegation::new("bob", &session_key(1), 0, &vec![], &canister()).unwrap();
    let principal = d.principal();
    assert_eq!(principal.len(), 29);
    assert_eq!(principal[28], 2);
    assert_ne!(principal, d.pubkey().to_vec());
    let other = Delegation::new("bobby", &session_key(1), 0, &vec![], &canister()).unwrap();
    assert_ne!(other.principal(), principal);
}

#[test]
fn payload_user_is_trimmed() {
    let payload = prepare_payload("  bob \n", session_key(1), vec![]);
    assert_eq!(payload.user(), "bob");
    let blank = prepare_payload("   ", session_key(1), vec![]);
    assert_eq!(blank.user(), "");
}

#[test]
fn message_bytes_and_text() {
    let s = setting();
    let m = Message::new("bob", &[1, 2], &vec![target()], &s, 0);
    let mut expected = b"bob".to_vec();
    expected.extend([1, 2]);
    expected.extend(canister());
    expected.extend(target());
    assert_eq!(m.to_vec(), expected);
    assert_eq!(m.hash(), siwt::hash::bytes(&expected));
    assert_eq!(m.expiration(), 10 * MINUTE);
    assert_eq!(
        m.text(),
        "User bob want to create delegation for accessing canister(s): rrkah-fqaaa-aaaaa-aaaaq-cai, ryjl3-tyaaa-aaaaa-aaaba-cai"
    );
}

#[test]
fn validation_errors_in_order() {
    let s = setting();
    let mut messages = Messages::new();
    let blank = prepare_payload("   ", session_key(1), vec![]);
    assert_eq!(prepare(&blank, &mut messages, &s, &canister(), 0).err(), Some(AuthError::UserEmpty));
    let no_key = prepare_payload("bob", vec![], vec![]);
    assert_eq!(prepare(&no_key, &mut messages, &s, &canister(), 0).err(), Some(AuthError::SessionEmpty));
    let bad_key = prepare_payload("bob", vec![0xff, 0x01], vec![]);
    assert_eq!(prepare(&bad_key, &mut messages, &s, &canister(), 0).err(), Some(AuthError::SessionInvalid));
    assert_eq!(AuthError::SessionInvalid.message(), "Session public key is invalid");
    assert!(messages.get(&[0u8; 32]).is_none());
}

#[test]
fn login_succeeds_once() {
    let s = setting();
    let mut messages = Messages::new();
    let mut state = State::new([0u8; 32]);
    let prepared = prepare(&prepare_payload("alice", session_key(1), vec![]), &mut messages, &s, &canister(), 0).unwrap();
    let payload = LoginPayload { hash: prepared.hash };
    assert!(login(&payload, &mut messages, &mut state, &s, &canister(), MINUTE).is_ok());
    let again = login(&payload, &mut messages, &mut state, &s, &canister(), MINUTE);
    assert_eq!(again.err(), Some(AuthError::NotFoundOrExpired));
    assert_eq!(AuthError::NotFoundOrExpired.message(), "Hash not found or expired");
}

#[test]
fn expired_challenge_cannot_be_redeemed() {
    let s = setting();
    let mut messages = Messages::new();
    let mut state = State::new([0u8; 32]);
    let prepared = prepare(&prepare_payload("alice", session_key(1), vec![]), &mut messages, &s, &canister(), 0).unwrap();
    let payload = LoginPayload { hash: prepared.hash };
    let late = login(&payload, &mut messages, &mut state, &s, &canister(), 10 * MINUTE);
    assert_eq!(late.err(), Some(AuthError::NotFoundOrExpired));
}

#[test]
fn prepare_twice_gives_one_challenge() {
    let s = setting();
    let mut messages = Messages::new();
    let payload = prepare_payload("carol", session_key(3), vec![target()]);
    let first = prepare(&payload, &mut messages, &s, &canister(), 0).unwrap();
    let second = prepare(&payload, &mut messages, &s, &canister(), MINUTE).unwrap();
    assert_eq!(first.hash, second.hash);
    assert_eq!(second.expiration, 11 * MINUTE);
    let stored = messages.remove(&first.hash).unwrap();
    assert_eq!(stored.expiration(), 11 * MINUTE);
    assert!(messages.get(&first.hash).is_none());
}

#[test]
fn messages_prune_drops_expired() {
    let s = setting();
    let mut messages = Messages::new();
    let m = Message::new("dave", &[1], &vec![], &s, 0);
    let h = m.hash();
    assert!(messages.put(&m, 0).is_none());
    assert!(messages.put(&m, 0).is_some());
    messages.prune(10 * MINUTE);
    assert!(messages.get(&h).is_none());
}

#[test]
fn bob_scenario_signs_with_self_canister_target() {
    let s = setting();
    let mut messages = Messages::new();
    let mut state = State::new([0u8; 32]);
    let sk = session_key(9);
    let prepared = prepare(&prepare_payload("bob", sk.clone(), vec![target()]), &mut messages, &s, &canister(), 0).unwrap();
    let (logged, certified) = login(&LoginPayload { hash: prepared.hash }, &mut messages, &mut state, &s, &canister(), 0).unwrap();
    assert_eq!(logged.expiration, 120 * MINUTE);
    assert_eq!(logged.expired.nanos(), 120 * MINUTE);
    assert_eq!(logged.canisters, vec![canister(), target()]);
    assert_eq!(certified, state.update_root_hash(state.signatures()));
    let request = DelegationPayload {
        user: "bob".to_string(),
        session: sk.clone(),
        expiration: logged.expiration,
        canisters: vec![target()],
    };
    let signed = delegation(b"certificate", &request, &state, &s, &canister()).unwrap();
    assert_eq!(signed.delegation.targets, vec![canister(), target()]);
    assert_eq!(signed.delegation.pubkey, sk);
    assert_eq!(signed.delegation.expiration, 120 * MINUTE);
    assert_eq!(signed.pubkey, user_canister_public_key(&canister(), "bob").unwrap());
    assert_eq!(&signed.signature[..4], &[0xd9, 0xd9, 0xf7, 0xa2]);
    assert_eq!(&signed.signature[4..16], b"kcertificate");
    assert_eq!(&signed.signature[16..28], b"Kcertificate");
    let other = DelegationPayload { expiration: logged.expiration + 1, ..request };
    let missing = delegation(b"certificate", &other, &state, &s, &canister());
    assert_eq!(missing.err(), Some(AuthError::SignatureNotFound));
}

#[test]
fn delegation_hash_matches_login_hash() {
    let s = setting();
    let mut messages = Messages::new();
    let mut state = State::new([0u8; 32]);
    let sk = session_key(4);
    let prepared = prepare(&prepare_payload("erin", sk.clone(), vec![]), &mut messages, &s, &canister(), 0).unwrap();
    let (logged, _) = login(&LoginPayload { hash: prepared.hash }, &mut messages, &mut state, &s, &canister(), 0).unwrap();
    let d = Delegation::new("erin", &sk, logged.expiration, &vec![canister()], &canister()).unwrap();
    assert_eq!(d.hash(), logged.hash);
    assert_eq!(d.seed(), siwt::utils::seed("erin"));
    assert_eq!(d.seed_hash(), siwt::hash::bytes(&d.seed()));
    assert_eq!(d.session_hash(), siwt::hash::bytes(&sk));
    assert!(state.signatures().contains(&d.seed_hash(), &d.hash()));
}

#[test]
fn signature_gone_after_expiry_and_pruning() {
    let mut s = setting();
    s.set_expiration_minute(1);
    let mut messages = Messages::new();
    let mut state = State::new([0u8; 32]);
    let sk = session_key(5);
    let prepared = prepare(&prepare_payload("frank", sk.clone(), vec![]), &mut messages, &s, &canister(), 0).unwrap();
    let (logged, _) = login(&LoginPayload { hash: prepared.hash }, &mut messages, &mut state, &s, &canister(), 0).unwrap();
    let request = DelegationPayload {
        user: "frank".to_string(),
        session: sk.clone(),
        expiration: logged.expiration,
        canisters: vec![canister()],
    };
    assert!(delegation(b"cert", &request, &state, &s, &canister()).is_ok());
    assert_eq!(state.signatures_mut().prune(2 * MINUTE), 1);
    let after = delegation(b"cert", &request, &state, &s, &canister());
    assert_eq!(after.err(), Some(AuthError::SignatureNotFound));
}

#[test]
fn pruning_is_bounded_per_call() {
    let mut s = setting();
    s.set_expiration_minute(1);
    let mut sigs = Signatures::new();
    for i in 0..25u8 {
        sigs.put([i; 32], [i; 32], &s, 0);
    }
    assert_eq!(sigs.prune(2 * MINUTE), 10);
    assert_eq!(sigs.prune(2 * MINUTE), 10);
    assert_eq!(sigs.prune(2 * MINUTE), 5);
    assert_eq!(sigs.prune(2 * MINUTE), 0);
    assert!(!sigs.contains(&[3; 32], &[3; 32]));
}

#[test]
fn put_prunes_at_most_ten_first() {
    let mut s = setting();
    s.set_expiration_minute(1);
    let mut sigs = Signatures::new();
    for i in 0..25u8 {
        sigs.put([i; 32], [i; 32], &s, 0);
    }
    sigs.put([100; 32], [100; 32], &s, 2 * MINUTE);
    let left = (0..25u8).filter(|i| sigs.contains(&[*i; 32], &[*i; 32])).count();
    assert_eq!(left, 15);
    assert_eq!(sigs.prune(2 * MINUTE), 10);
    assert_eq!(sigs.prune(2 * MINUTE), 5);
    assert!(sigs.contains(&[100; 32], &[100; 32]));
}

#[test]
fn unexpired_entries_are_kept() {
    let s = setting();
    let mut sigs = Signatures::new();
    sigs.put([1; 32], [2; 32], &s, 0);
    assert_eq!(sigs.prune(MINUTE), 0);
    assert!(sigs.contains(&[1; 32], &[2; 32]));
    assert!(sigs.witness(&[1; 32], &[2; 32]).is_some());
    assert!(sigs.witness(&[1; 32], &[3; 32]).is_none());
}

#[test]
fn delete_drops_empty_seed() {
    let s = setting();
    let mut sigs = Signatures::new();
    let empty_root = sigs.root_hash();
    sigs.put([1; 32], [2; 32], &s, 0);
    assert_ne!(sigs.root_hash(), empty_root);
    sigs.delete(&[1; 32], &[2; 32]);
    assert!(!sigs.contains(&[1; 32], &[2; 32]));
    assert_eq!(sigs.root_hash(), empty_root);
}

#[test]
fn puts_certifies_all_hashes_under_one_seed() {
    let s = setting();
    let mut sigs = Signatures::new();
    let out = sigs.puts([1; 32], &vec![[2; 32], [3; 32]], &s, 0);
    assert_eq!(out, vec![[2; 32], [3; 32]]);
    assert!(sigs.contains(&[1; 32], &[2; 32]));
    assert!(sigs.contains(&[1; 32], &[3; 32]));
}

#[test]
fn middleware_flow_signs_both_keys() {
    let s = setting();
    let mut messages = Messages::new();
    let mut state = State::new([0u8; 32]);
    let sk = session_key(6);
    let mk = session_key(7);
    let prepared = prepare(&prepare_payload("gina", sk.clone(), vec![]), &mut messages, &s, &canister(), 0).unwrap();
    let payload = MiddlewareLoginPayload { hash: prepared.hash, middleware: mk.clone() };
    let (logged, _) = middleware_login(&payload, &mut messages, &mut state, &s, &canister(), 0).unwrap();
    assert_eq!(logged.canisters, vec![canister()]);
    let request = MiddlewareDelegationPayload {
        request: DelegationPayload {
            user: "gina".to_string(),
            session: sk.clone(),
            expiration: logged.expiration,
            canisters: vec![canister()],
        },
        middleware: mk.clone(),
    };
    let signed = middleware_delegation(b"cert", &request, &state, &canister()).unwrap();
    assert_eq!(signed.session.pubkey, sk);
    assert_eq!(signed.middleware.pubkey, mk);
    assert_eq!(signed.canisters, vec![canister()]);
    assert_eq!(signed.pubkey, user_canister_public_key(&canister(), "gina").unwrap());
}

#[test]
fn middleware_key_is_validated() {
    let state = State::new([0u8; 32]);
    let request = MiddlewareDelegationPayload {
        request: DelegationPayload {
            user: "gina".to_string(),
            session: session_key(6),
            expiration: 0,
            canisters: vec![],
        },
        middleware: vec![],
    };
    let r = middleware_delegation(b"cert", &request, &state, &canister());
    assert_eq!(r.err(), Some(AuthError::MiddlewareEmpty));
    let request = MiddlewareDelegationPayload { middleware: vec![0xff], ..request };
    let r = middleware_delegation(b"cert", &request, &state, &canister());
    assert_eq!(r.err(), Some(AuthError::MiddlewareInvalid));
}

#[test]
fn middleware_store_signs_and_expires() {
    let mut store = Middlewares::init();
    let m = Middleware::new(&[1], &[2], MINUTE, &vec![canister()]);
    store.put([9; 32], m, 0);
    assert_eq!(store.modify(&[9; 32], &[5, 5], 0), Some(()));
    assert!(store.get(&[9; 32]).is_some());
    assert_eq!(store.modify(&[9; 32], &[5, 5], 2 * MINUTE), None);
    assert!(store.get(&[9; 32]).is_none());
}

#[test]
fn proof_blob_frames_long_certificate() {
    let cert = vec![0xab; 300];
    let blob = proof_blob(&cert, &[0x80]);
    assert_eq!(&blob[16..19], &[0x59, 0x01, 0x2c]);
    assert_eq!(blob.len(), 4 + 12 + 3 + 300 + 5 + 1);
    assert_eq!(&blob[319..], &[0x64, b't', b'r', b'e', b'e', 0x80]);
}

#[test]
fn sub_account_right_aligns_principal() {
    let account = sub_account(&[1, 2, 3]);
    let mut expected = [0u8; 32];
    expected[29] = 1;
    expected[30] = 2;
    expected[31] = 3;
    assert_eq!(account, expected);
}

#[test]
fn global_is_addressed_by_key_digest() {
    let g = Global::from("theme", &[1, 2]);
    assert_eq!(g.hash(), siwt::hash::string("theme"));
    assert_eq!(g.pair(), ("theme".to_string(), vec![1, 2]));
}

#[test]
fn certified_root_forks_labeled_roots() {
    let s = setting();
    let mut state = State::new([3u8; 32]);
    state.signatures_mut().put([1; 32], [2; 32], &s, 0);
    let sig_root = state.signatures().root_hash();
    let expected = ic_certified_map::fork_hash(
        &ic_certified_map::labeled_hash(b"http_assets", &[3u8; 32]),
        &ic_certified_map::labeled_hash(b"sig", &sig_root),
    );
    assert_eq!(state.update_root_hash(state.signatures()), expected);
    assert_ne!(expected, sig_root);
}

#[test]
fn delegation_new_validates_user_and_key() {
    let blank = Delegation::new("  ", &session_key(1), 0, &vec![], &canister());
    assert_eq!(blank.err(), Some(AuthError::UserEmpty));
    let empty = Delegation::new("bob", &[], 0, &vec![], &canister());
    assert_eq!(empty.err(), Some(AuthError::SessionEmpty));
    let bad = Delegation::new("bob", &[0xff, 0x01], 0, &vec![], &canister());
    assert_eq!(bad.err(), Some(AuthError::SessionInvalid));
    assert!(Delegation::new("bob", &session_key(1), 0, &vec![], &canister()).is_ok());
}

#[test]
fn build_skips_validation() {
    let d = Delegation::build("", &[], 7, &vec![target(), target()], &canister());
    assert_eq!(d.expiration(), 7);
    assert_eq!(d.targets(), &vec![target()]);
}

#[test]
fn witness_leads_to_live_root() {
    let s = setting();
    let mut sigs = Signatures::new();
    sigs.put([1; 32], [2; 32], &s, 0);
    sigs.put([3; 32], [4; 32], &s, 0);
    let (_, root) = sigs.witness(&[1; 32], &[2; 32]).unwrap();
    assert_eq!(root, sigs.root_hash());
}

fn proof_tree_root(signature: &[u8]) -> ([u8; 32], Vec<u8>) {
    let mut value: serde_cbor::Value = serde_cbor::from_slice(signature).unwrap();
    if let serde_cbor::Value::Tag(_, inner) = value {
        value = *inner;
    }
    let map = match value {
        serde_cbor::Value::Map(map) => map,
        _ => panic!("proof is not a map"),
    };
    let certificate = match map.get(&serde_cbor::Value::Text("certificate".to_string())) {
        Some(serde_cbor::Value::Bytes(b)) => b.clone(),
        _ => panic!("no certificate"),
    };
    let tree = map.get(&serde_cbor::Value::Text("tree".to_string())).unwrap();
    let encoded = serde_cbor::to_vec(tree).unwrap();
    let tree: ic_certified_map::HashTree = serde_cbor::from_slice(&encoded).unwrap();
    (tree.reconstruct(), certificate)
}

#[test]
fn proof_tree_reconstructs_certified_root() {
    let s = setting();
    let mut messages = Messages::new();
    let mut state = State::new([5u8; 32]);
    let sk = session_key(8);
    let prepared = prepare(&prepare_payload("hana", sk.clone(), vec![]), &mut messages, &s, &canister(), 0).unwrap();
    let (logged, certified) = login(&LoginPayload { hash: prepared.hash }, &mut messages, &mut state, &s, &canister(), 0).unwrap();
    let request = DelegationPayload {
        user: "hana".to_string(),
        session: sk,
        expiration: logged.expiration,
        canisters: vec![],
    };
    let signed = delegation(b"cert", &request, &state, &s, &canister()).unwrap();
    let (root, certificate) = proof_tree_root(&signed.signature);
    assert_eq!(root, certified);
    assert_eq!(certificate, b"cert".to_vec());
}

#[test]
fn emptied_tree_has_empty_root() {
    let mut s = setting();
    s.set_expiration_minute(1);
    let mut sigs = Signatures::new();
    let empty = sigs.root_hash();
    for i in 0..12u8 {
        sigs.put([i; 32], [i; 32], &s, 0);
    }
    assert_eq!(sigs.prune(2 * MINUTE), 10);
    assert_eq!(sigs.prune(2 * MINUTE), 2);
    assert_eq!(sigs.prune(2 * MINUTE), 0);
    assert_eq!(sigs.root_hash(), empty);
}

#[test]
fn long_der_key_is_accepted() {
    let mut key = vec![0x30, 0x82, 0x04, 0x04, 0x04, 0x82, 0x04, 0x00];
    key.extend(std::iter::repeat(7u8).take(1024));
    let r = Delegation::new("bob", &key, 0, &vec![], &canister());
    assert!(r.is_ok());
}
