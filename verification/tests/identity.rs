use sha2::{Digest, Sha256};
use tc_service::seed::accounts::{demo_key_seed, demo_username, deterministic_pubkey};
use tc_service::sim::identity::{device_key_seed, named_key_seeds, root_key_seed, sim_username};

#[test]
fn username_format() {
    assert_eq!(sim_username(0), "sim_voter_00");
    assert_eq!(sim_username(1), "sim_voter_01");
    assert_eq!(sim_username(9), "sim_voter_09");
    assert_eq!(sim_username(10), "sim_voter_10");
    assert_eq!(sim_username(99), "sim_voter_99");
}

#[test]
fn usernames_past_two_digits_are_not_cut() {
    assert_eq!(sim_username(123), "sim_voter_123");
}

#[test]
fn key_seeds_are_sha256_of_the_seed_text() {
    let expected: Vec<u8> = Sha256::digest(b"tc-sim-root-key-v1-7").to_vec();
    assert_eq!(root_key_seed(7), expected);
    let expected: Vec<u8> = Sha256::digest(b"tc-sim-device-key-v1-7").to_vec();
    assert_eq!(device_key_seed(7), expected);
}

#[test]
fn same_index_gives_same_seeds_and_indices_differ() {
    assert_eq!(root_key_seed(3), root_key_seed(3));
    assert_ne!(root_key_seed(3), root_key_seed(4));
    assert_ne!(root_key_seed(3), device_key_seed(3));
}

#[test]
fn verifier_seeds_use_their_own_domain() {
    let (root, device) = named_key_seeds("tc-sim-verifier");
    assert_eq!(root, Sha256::digest(b"tc-sim-verifier-root-key-v1").to_vec());
    assert_eq!(device, Sha256::digest(b"tc-sim-verifier-device-key-v1").to_vec());
    let (demo_root, _) = named_key_seeds("tc-demo-verifier");
    assert_ne!(root, demo_root);
}

#[test]
fn demo_accounts_are_numbered_from_one() {
    assert_eq!(demo_username(0), "demo_voter_01");
    assert_eq!(demo_username(19), "demo_voter_20");
    assert_eq!(demo_key_seed(0), 100);
    assert_eq!(demo_key_seed(156), 0);
    assert_eq!(demo_key_seed(200), 44);
}

#[test]
fn deterministic_pubkey_encodes_32_copies() {
    assert_eq!(deterministic_pubkey(0), "AAAAAAAAAAAAAAAAAAAAAAAAAAAAAAAAAAAAAAAAAAA");
    assert_eq!(deterministic_pubkey(100).len(), 43);
}
