use ctb_crypt::crypto::{ChaCha20Poly1305, Crypto};
use ctb_crypt::error::CtbError;
use ctb_crypt::stream_decryptor::ChunkStreamDecryptor;

fn nonce_of(i: u8) -> Vec<u8> {
    let mut n = vec![0u8; 12];
    n[0] = i;
    n
}

#[test]
fn chunk_stream_opens_chunks_under_counting_nonces() {
    let key = vec![7u8; 32];
    let c0 = <ChaCha20Poly1305 as Crypto>::encrypt(&key, &nonce_of(0), b"hello ").unwrap();
    let c1 = <ChaCha20Poly1305 as Crypto>::encrypt(&key, &nonce_of(1), b"world").unwrap();
    let mut d = ChunkStreamDecryptor::<ChaCha20Poly1305>::new(key.clone(), nonce_of(0));
    assert!(d.needs_size());
    assert_eq!(d.accept_size_field(&[22, 0, 0, 0]), Ok(()));
    assert!(!d.needs_size());
    assert_eq!(d.chunk_read_len(), 22);
    assert!(d.wants_chunk(1));
    assert_eq!(d.accept_chunk(Some(&c0)), Ok(true));
    assert_eq!(d.accept_chunk(Some(&c1)), Ok(true));
    assert_eq!(d.accept_chunk(Some(&[])), Ok(false));
    assert_eq!(d.take(3), b"hel".to_vec());
    assert_eq!(d.take(100), b"lo world".to_vec());
    assert_eq!(d.take(10), Vec::<u8>::new());
}

#[test]
fn chunk_stream_refuses_bad_chunks() {
    let key = vec![7u8; 32];
    let c1 = <ChaCha20Poly1305 as Crypto>::encrypt(&key, &nonce_of(1), b"x").unwrap();
    let mut d = ChunkStreamDecryptor::<ChaCha20Poly1305>::new(key, nonce_of(0));
    assert_eq!(d.accept_chunk(Some(&c1)), Err(CtbError::Decryption));
    assert_eq!(d.accept_chunk(None), Err(CtbError::Decryption));
    assert_eq!(d.take(10), Vec::<u8>::new());
}

#[test]
fn chunk_stream_size_field() {
    let mut d = ChunkStreamDecryptor::<ChaCha20Poly1305>::new(vec![0u8; 32], vec![0u8; 12]);
    assert_eq!(d.accept_size_field(&[1, 1]), Ok(()));
    assert_eq!(d.chunk_read_len(), 257);
    assert_eq!(d.accept_size_field(&[0, 0, 0, 0, 0, 0, 0, 0, 1]), Err(CtbError::SizeMismatch));
    assert_eq!(d.chunk_read_len(), 257);
}
