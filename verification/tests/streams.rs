use base64::Engine;
use ctb_crypt::crypto::{ChaCha20Poly1305, Crypto, XChaCha20Poly1305, TAG_SIZE};
use ctb_crypt::data_key_recovery::DataKeyRecoveryGenerator;
use ctb_crypt::encryptor::EncryptedIterator;
use ctb_crypt::encryptor_file_generator::{size_field, EncryptedFileGenerator};
use ctb_crypt::error::CtbError;
use ctb_crypt::file_system::{FileSystem, PersistFileSystem};
use ctb_crypt::generic_array::UuidBytes;
use ctb_crypt::storage::S3Storage;
use std::cell::RefCell;

#[test]
fn iterator_advances_nonce_on_every_read() {
    let key = vec![1u8; 32];
    let mut it = EncryptedIterator::<ChaCha20Poly1305>::new(&key, 8);
    assert!(it.next(Ok(vec![])).is_none());
    assert_eq!(it.next(Err(CtbError::Read)), Some(Err(CtbError::Read)));
    let sealed = it.next(Ok(b"abc".to_vec())).unwrap().unwrap();
    let mut nonce = vec![0u8; 12];
    nonce[0] = 2;
    assert_eq!(ChaCha20Poly1305::decrypt(&key, &nonce, &sealed).unwrap(), b"abc".to_vec());
    assert_eq!(it.chunk_size, 8);
}

#[test]
fn size_field_is_eight_little_endian_bytes() {
    assert_eq!(size_field(0), vec![0u8; 8]);
    assert_eq!(size_field(0x1234), vec![0x34, 0x12, 0, 0, 0, 0, 0, 0]);
}

#[test]
fn sized_stream_starts_with_first_chunk_length() {
    let key = vec![2u8; 32];
    let it = EncryptedIterator::<ChaCha20Poly1305>::new(&key, 4);
    let mut g = EncryptedFileGenerator::new(it);
    let plain = b"abcdefg";
    let mut pos = 0;
    let mut out = Vec::new();
    loop {
        let want = g.wants_chunk(64);
        let read = if want {
            let end = std::cmp::min(pos + 4, plain.len());
            let r = plain[pos..end].to_vec();
            pos = end;
            Some(Ok(r))
        } else {
            None
        };
        let got = g.read(64, read);
        if got.is_empty() {
            break;
        }
        out.extend_from_slice(&got);
    }
    assert_eq!(&out[..8], &size_field(4 + TAG_SIZE)[..]);
    let first = &out[8..8 + 4 + TAG_SIZE];
    assert_eq!(ChaCha20Poly1305::decrypt(&key, &[0u8; 12], first).unwrap(), b"abcd".to_vec());
    let mut n1 = [0u8; 12];
    n1[0] = 1;
    assert_eq!(ChaCha20Poly1305::decrypt(&key, &n1, &out[8 + 4 + TAG_SIZE..]).unwrap(), b"efg".to_vec());
}

#[test]
fn data_key_recovery_blob_with_nonce() {
    let root = vec![3u8; 32];
    let gen = DataKeyRecoveryGenerator::<XChaCha20Poly1305>::new(&root);
    let nonce = vec![4u8; 24];
    let key = vec![5u8; 32];
    let name = "chacha20poly1305::ChaChaPoly1305<chacha20::XChaCha20, U24>";
    let blob = gen.with_nonce(&key, &nonce, name).unwrap();
    let b64 = base64::prelude::BASE64_STANDARD;
    let json = String::from_utf8(b64.decode(&blob).unwrap()).unwrap();
    let sealed = XChaCha20Poly1305::encrypt(&root, &nonce, &key).unwrap();
    assert_eq!(
        json,
        format!(
            "{{\"version\":\"V1\",\"alg\":\"ChaChaPoly1305\",\"nonce\":\"{}\",\"cipher\":\"{}\"}}",
            b64.encode(&nonce),
            b64.encode(&sealed)
        )
    );
}

#[test]
fn data_key_recovery_blob_with_uuid_and_rand() {
    let root = vec![3u8; 32];
    let gen = DataKeyRecoveryGenerator::<XChaCha20Poly1305>::new(&root);
    let uuid = UuidBytes([7u8; 16]);
    let mut nonce = vec![7u8; 16];
    nonce.extend_from_slice(&[0u8; 8]);
    let name = "x::Y";
    assert_eq!(gen.with_uuid(&[1u8; 32], &uuid, name).unwrap(), gen.with_nonce(&[1u8; 32], &nonce, name).unwrap());
    assert!(gen.with_rand(&[1u8; 32], name).is_ok());
    assert_eq!(gen.with_rand(&[1u8; 32], "Y"), Err(CtbError::TypeName));
}

#[derive(Default)]
struct Paths {
    saved: RefCell<Vec<(String, String)>>,
}

impl FileSystem for Paths {
    fn save_path(&self, path: &str, key: &str) -> Result<(), CtbError> {
        self.saved.borrow_mut().push((path.to_string(), key.to_string()));
        Ok(())
    }

    fn get_path(&self, path: &str) -> Result<Option<String>, CtbError> {
        Ok(self.saved.borrow().iter().find(|(p, _)| p == path).map(|(_, k)| k.clone()))
    }
}

#[test]
fn path_store_saves_id_under_path() {
    let fs = PersistFileSystem::new(Paths::default());
    fs.save_path("id-1", "docs/a.txt").unwrap();
    assert_eq!(fs.get_path("docs/a.txt").unwrap(), Some("id-1".to_string()));
    assert_eq!(fs.get_path("id-1").unwrap(), None);
}

#[test]
fn s3_storage_keeps_bucket_and_chunk_size() {
    let s = S3Storage::new("bucket", 1024);
    assert_eq!(s.bucket_name, "bucket");
    assert_eq!(s.chunk_size, 1024);
}
