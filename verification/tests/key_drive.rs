use ctb_crypt::key_drive::generate_key;
use hmac::{Hmac, Mac};
use sha3::Sha3_256;

fn hmac(key: &[u8], parts: &[&[u8]]) -> Vec<u8> {
    let mut mac = <Hmac<Sha3_256> as Mac>::new_from_slice(key).unwrap();
    for p in parts {
        mac.update(p);
    }
    mac.finalize().into_bytes().to_vec()
}

#[test]
fn zero_root_key_means_no_rounds() {
    let root = [0u8; 32];
    let derived = generate_key(&root, b"context").unwrap();
    assert_eq!(derived, hmac(&root, &[]));
    assert_eq!(derived.len(), 32);
}

#[test]
fn rounds_follow_root_key_value_modulo_ten_thousand() {
    let mut root = [0u8; 32];
    root[0] = 0x13;
    root[1] = 0x27;
    // 0x2713 = 10003, so three rounds.
    let derived = generate_key(&root, b"ctx").unwrap();
    assert_eq!(derived, hmac(&root, &[&root, b"ctx", &root, b"ctx", &root, b"ctx"]));
}

#[test]
fn context_changes_derived_key() {
    let mut root = [0u8; 32];
    root[0] = 2;
    assert_ne!(generate_key(&root, b"a").unwrap(), generate_key(&root, b"b").unwrap());
}
