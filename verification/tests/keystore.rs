use std::cell::RefCell;

use base64::Engine;
use ctb_crypt::crypto::{Crypto, XChaCha20Poly1305};
use ctb_crypt::error::CtbError;
use ctb_crypt::keystore::{recovery_blob, KeyStore, KeyStorePersist, SerializedKey, DATA_KEY_TAG, RECOVERY_TAG};

const NAME: &str = "chacha20poly1305::ChaChaPoly1305<chacha20::XChaCha20, U24>";

#[derive(Default)]
struct MemoryPersist {
    rows: RefCell<Vec<(String, String, String, String)>>,
}

impl KeyStorePersist for MemoryPersist {
    fn save_key(&self, k: SerializedKey) -> Result<(), CtbError> {
        self.rows.borrow_mut().push((k.id, k.nonce, k.key, k.tag));
        Ok(())
    }

    fn get_key(&self, key_id: &str) -> Result<Option<SerializedKey>, CtbError> {
        Ok(self.rows.borrow().iter().find(|r| r.0 == key_id).map(|r| SerializedKey {
            id: r.0.clone(),
            nonce: r.1.clone(),
            key: r.2.clone(),
            tag: r.3.clone(),
        }))
    }

    fn get_with_tag(&self, tag: &str) -> Result<Option<SerializedKey>, CtbError> {
        Ok(self.rows.borrow().iter().find(|r| r.3 == tag).map(|r| SerializedKey {
            id: r.0.clone(),
            nonce: r.1.clone(),
            key: r.2.clone(),
            tag: r.3.clone(),
        }))
    }
}

struct FailingPersist;

impl KeyStorePersist for FailingPersist {
    fn save_key(&self, _k: SerializedKey) -> Result<(), CtbError> {
        Err(CtbError::Persistence)
    }

    fn get_key(&self, _key_id: &str) -> Result<Option<SerializedKey>, CtbError> {
        Err(CtbError::Persistence)
    }

    fn get_with_tag(&self, _tag: &str) -> Result<Option<SerializedKey>, CtbError> {
        Err(CtbError::Persistence)
    }
}

fn store() -> KeyStore<XChaCha20Poly1305, MemoryPersist> {
    KeyStore::new(vec![11u8; 32], MemoryPersist::default())
}

#[test]
fn stored_key_reads_back() {
    let mut s = store();
    let key = vec![42u8; 32];
    s.insert("file-1", &key).unwrap();
    assert_eq!(s.get("file-1").unwrap(), Some(key));
    assert_eq!(s.get("other").unwrap(), None);
}

#[test]
fn stored_key_is_tagged_as_data_key_and_sealed() {
    let mut s = store();
    s.insert("file-1", &[1u8; 32]).unwrap();
    let (id, key) = s.get_with_tag(DATA_KEY_TAG).unwrap().unwrap();
    assert_eq!(id, "file-1");
    assert_eq!(key, vec![1u8; 32]);
}

#[test]
fn serialize_key_pair_with_nonce_is_base64_of_nonce_and_sealed_key() {
    let s = store();
    let nonce = vec![3u8; 24];
    let key = vec![4u8; 32];
    let (n, c) = s.serialize_key_pair_with_nonce(&key, &nonce).unwrap();
    let b64 = base64::prelude::BASE64_STANDARD;
    assert_eq!(n, b64.encode(&nonce));
    let sealed = XChaCha20Poly1305::encrypt(&[11u8; 32], &nonce, &key).unwrap();
    assert_eq!(c, b64.encode(&sealed));
    assert_eq!(s.deserialize_key_pair(&n, &c).unwrap(), key);
}

#[test]
fn serialize_then_deserialize_gives_key_back() {
    let s = store();
    let key: Vec<u8> = (0..32u8).collect();
    let (n, c) = s.serialize_key_pair(&key).unwrap();
    assert_eq!(s.deserialize_key_pair(&n, &c).unwrap(), key);
    assert_eq!(s.deserialize_key_pair(&format!("  {}\n", n), &format!("\t{} ", c)).unwrap(), key);
}

#[test]
fn deserialize_key_pair_errors() {
    let s = store();
    let b64 = base64::prelude::BASE64_STANDARD;
    assert_eq!(s.deserialize_key_pair("not base64!", "AAAA"), Err(CtbError::Base64));
    assert_eq!(s.deserialize_key_pair(&b64.encode([0u8; 12]), "AAAA"), Err(CtbError::SizeMismatch));
    assert_eq!(s.deserialize_key_pair(&b64.encode([0u8; 24]), "%%"), Err(CtbError::Base64));
    assert_eq!(s.deserialize_key_pair(&b64.encode([0u8; 24]), &b64.encode([0u8; 48])), Err(CtbError::Decryption));
    let nonce = [5u8; 24];
    let short = XChaCha20Poly1305::encrypt(&[11u8; 32], &nonce, &[1u8; 16]).unwrap();
    assert_eq!(s.deserialize_key_pair(&b64.encode(nonce), &b64.encode(short)), Err(CtbError::SizeMismatch));
}

#[test]
fn recovery_key_can_be_set_once() {
    let mut s = store();
    assert_eq!(s.get_recovery_key().unwrap(), None);
    s.set_recover_key("rec-1", &[9u8; 32]).unwrap();
    assert_eq!(s.get_recovery_key().unwrap(), Some(("rec-1".to_string(), vec![9u8; 32])));
    assert_eq!(s.set_recover_key("rec-2", &[8u8; 32]), Err(CtbError::RecoveryKeyExists));
    assert_eq!(s.get_with_tag(RECOVERY_TAG).unwrap().unwrap().0, "rec-1");
}

#[test]
fn recovery_blob_needs_recovery_key() {
    let s = store();
    assert_eq!(s.generate_recovery_blob(&[1u8; 32], &[0u8; 24], NAME), Err(CtbError::NoRecoveryKey));
}

#[test]
fn recovery_blob_is_base64_json_with_sealed_key() {
    let mut s = store();
    s.set_recover_key("rec-1", &[9u8; 32]).unwrap();
    let key = vec![1u8; 32];
    let nonce = vec![2u8; 24];
    let blob = s.generate_recovery_blob(&key, &nonce, NAME).unwrap();
    let b64 = base64::prelude::BASE64_STANDARD;
    let json = String::from_utf8(b64.decode(&blob).unwrap()).unwrap();
    let sealed = XChaCha20Poly1305::encrypt(&[9u8; 32], &nonce, &key).unwrap();
    let expected = format!(
        "{{\"version\":\"V1\",\"alg\":\"ChaChaPoly1305\",\"nonce\":\"{}\",\"cipher\":\"{}\",\"id\":\"rec-1\"}}",
        b64.encode(&nonce),
        b64.encode(&sealed)
    );
    assert_eq!(json, expected);
    assert_eq!(blob, recovery_blob::<XChaCha20Poly1305>("rec-1", &[9u8; 32], &key, &nonce, NAME).unwrap());
}

#[test]
fn recovery_blob_needs_a_type_name_segment() {
    assert_eq!(
        recovery_blob::<XChaCha20Poly1305>("rec-1", &[9u8; 32], &[1u8; 32], &[2u8; 24], "NoSegments"),
        Err(CtbError::TypeName)
    );
}

#[test]
fn generated_key_pair_is_stored_with_blob() {
    let mut s = store();
    s.set_recover_key("rec-1", &[9u8; 32]).unwrap();
    let g = s.generate_key_pair("file-7", NAME).unwrap();
    assert_eq!(g.key.len(), 32);
    assert!(!g.recovery_blob.is_empty());
    assert_eq!(s.get("file-7").unwrap(), Some(g.key.clone()));
}

#[test]
fn generate_key_pair_without_recovery_key_stores_nothing() {
    let mut s = store();
    assert_eq!(s.generate_key_pair("file-7", NAME).err(), Some(CtbError::NoRecoveryKey));
    assert_eq!(s.get("file-7").unwrap(), None);
}

#[test]
fn storage_errors_pass_through() {
    let mut s: KeyStore<XChaCha20Poly1305, FailingPersist> = KeyStore::new(vec![0u8; 32], FailingPersist);
    assert_eq!(s.get("x"), Err(CtbError::Persistence));
    assert_eq!(s.insert("x", &[0u8; 32]), Err(CtbError::Persistence));
    assert_eq!(s.get_recovery_key(), Err(CtbError::Persistence));
}

#[test]
fn lookups_map_stored_records() {
    let s = store();
    let (n, c) = s.serialize_key_pair(&[6u8; 32]).unwrap();
    let sk = SerializedKey { id: "k".to_string(), nonce: n, key: c, tag: "DK".to_string() };
    assert_eq!(s.key_from_lookup(Ok(Some(sk))), Ok(Some(vec![6u8; 32])));
    assert_eq!(s.key_from_lookup(Ok(None)), Ok(None));
    assert_eq!(s.key_from_lookup(Err(CtbError::Persistence)), Err(CtbError::Persistence));
    let bad = SerializedKey { id: "k".to_string(), nonce: "??".to_string(), key: "".to_string(), tag: "DK".to_string() };
    assert_eq!(s.tagged_key_from_lookup(Ok(Some(bad))), Err(CtbError::Base64));
}

#[test]
fn serialized_key_record() {
    let s = store();
    let sk = s.serialized_key("id-1", &[1u8; 32], "DK", &[0u8; 24]).unwrap();
    assert_eq!(sk.id, "id-1");
    assert_eq!(sk.tag, "DK");
    assert_eq!(s.deserialize_key_pair(&sk.nonce, &sk.key).unwrap(), vec![1u8; 32]);
}
