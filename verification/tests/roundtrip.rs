use ctb_crypt::crypto::{ChaCha20Poly1305, Crypto, XChaCha20Poly1305, TAG_SIZE};
use ctb_crypt::decrypt_file::ReaderDecryptor;
use ctb_crypt::encrypt_file::EncryptedFileGenerator;
use ctb_crypt::encryptor::Encryptor;
use ctb_crypt::error::CtbError;
use ctb_crypt::file_format::{read_chunk_header, read_file_header};

const NAME: &str = "chacha20poly1305::ChaChaPoly1305<chacha20::ChaCha20, U12>";

/// Drives a generator as a reader with buffers of `read_size` over `plain`
/// read in chunks of `chunk_size`.
fn encrypt_all(gen: &mut EncryptedFileGenerator<ChaCha20Poly1305>, plain: &[u8], chunk_size: usize, read_size: usize) -> Vec<u8> {
    let mut pos = 0usize;
    let mut out = Vec::new();
    loop {
        gen.begin_read().unwrap();
        while gen.wants_chunk(read_size) {
            let end = std::cmp::min(pos + chunk_size, plain.len());
            let read = plain[pos..end].to_vec();
            pos = end;
            if !gen.push_read(Ok(read)).unwrap() {
                break;
            }
        }
        let got = gen.finish_read(read_size);
        if got.is_empty() {
            break;
        }
        out.extend_from_slice(&got);
    }
    out
}

fn decrypt_all(key: &[u8], file: &[u8]) -> Result<Vec<u8>, CtbError> {
    let (context, consumed) = read_file_header(file)?;
    let text = String::from_utf8(context).unwrap();
    let marker = "\"chunk_size\":";
    let start = text.find(marker).unwrap() + marker.len();
    let digits: String = text[start..].chars().take_while(|c| c.is_ascii_digit()).collect();
    let chunk_size: u64 = digits.parse().unwrap();
    let mut dec = ReaderDecryptor::<ChaCha20Poly1305>::new(key.to_vec());
    dec.set_header_chunk_size(chunk_size);
    let mut pos = consumed;
    let mut out = Vec::new();
    loop {
        let h_end = std::cmp::min(pos + 4, file.len());
        let header = &file[pos..h_end];
        pos = h_end;
        let c_end = std::cmp::min(pos + dec.chunk_read_len(), file.len());
        let chunk = &file[pos..c_end];
        pos = c_end;
        if !dec.accept_chunk(header, Some(chunk))? {
            break;
        }
    }
    out.extend_from_slice(&dec.take(usize::MAX));
    Ok(out)
}

#[test]
fn encrypted_file_decrypts_to_plaintext() {
    let key = vec![7u8; 32];
    let plain: Vec<u8> = (0..40u8).collect();
    let enc = Encryptor::new("client-id".to_string(), 16);
    let mut gen = enc.encrypt::<ChaCha20Poly1305>("file-1".to_string(), &key, "blob".to_string(), NAME).unwrap();
    let file = encrypt_all(&mut gen, &plain, 16, 4096);
    let header_len = 3 + gen_header_len();
    assert_eq!(file.len(), header_len + 3 * 4 + 40 + 3 * TAG_SIZE);
    assert_eq!(decrypt_all(&key, &file).unwrap(), plain);
}

fn gen_header_len() -> usize {
    "{\"version\":\"V1\",\"alg\":\"ChaChaPoly1305\",\"client_id\":\"client-id\",\"file_id\":\"file-1\",\"chunk_size\":16,\"recovery\":\"blob\"}".len()
}

#[test]
fn encrypted_file_layout() {
    let key = vec![1u8; 32];
    let enc = Encryptor::new("client-id".to_string(), 16);
    let mut gen = enc.encrypt::<ChaCha20Poly1305>("file-1".to_string(), &key, "blob".to_string(), NAME).unwrap();
    let file = encrypt_all(&mut gen, b"hello", 16, 4096);
    assert_eq!(file[0], 1);
    let len = gen_header_len();
    assert_eq!(file[1] as usize + 256 * file[2] as usize, len);
    assert_eq!(&file[3 + len..3 + len + 4], &[0, 0, 0, 0]);
    let sealed = &file[3 + len + 4..];
    let nonce = vec![0u8; 12];
    assert_eq!(ChaCha20Poly1305::decrypt(&key, &nonce, sealed).unwrap(), b"hello".to_vec());
}

#[test]
fn second_chunk_uses_next_nonce() {
    let key = vec![3u8; 32];
    let enc = Encryptor::new("c".to_string(), 4);
    let mut gen = enc.encrypt::<ChaCha20Poly1305>("f".to_string(), &key, "r".to_string(), NAME).unwrap();
    let file = encrypt_all(&mut gen, b"abcdefgh", 4, 4096);
    let (_, consumed) = read_file_header(&file).unwrap();
    let second = &file[consumed + 4 + 4 + TAG_SIZE + 4..];
    let mut nonce = vec![0u8; 12];
    nonce[0] = 1;
    assert_eq!(ChaCha20Poly1305::decrypt(&key, &nonce, second).unwrap(), b"efgh".to_vec());
}

#[test]
fn small_reads_give_the_same_file() {
    let key = vec![9u8; 32];
    let plain: Vec<u8> = (0..100u8).collect();
    let enc = Encryptor::new("client-id".to_string(), 16);
    let mut big = enc.encrypt::<ChaCha20Poly1305>("file-1".to_string(), &key, "blob".to_string(), NAME).unwrap();
    let whole = encrypt_all(&mut big, &plain, 16, 1 << 20);
    let mut small = enc.encrypt::<ChaCha20Poly1305>("file-1".to_string(), &key, "blob".to_string(), NAME).unwrap();
    let pieces = encrypt_all(&mut small, &plain, 16, 200);
    assert_eq!(whole, pieces);
}

#[test]
fn tampered_chunk_is_refused() {
    let key = vec![5u8; 32];
    let enc = Encryptor::new("client-id".to_string(), 16);
    let mut gen = enc.encrypt::<ChaCha20Poly1305>("file-1".to_string(), &key, "blob".to_string(), NAME).unwrap();
    let mut file = encrypt_all(&mut gen, b"some secret bytes", 16, 4096);
    let last = file.len() - 1;
    file[last] ^= 1;
    assert_eq!(decrypt_all(&key, &file), Err(CtbError::Decryption));
}

#[test]
fn wrong_key_is_refused() {
    let key = vec![5u8; 32];
    let enc = Encryptor::new("client-id".to_string(), 16);
    let mut gen = enc.encrypt::<ChaCha20Poly1305>("file-1".to_string(), &key, "blob".to_string(), NAME).unwrap();
    let file = encrypt_all(&mut gen, b"some secret bytes", 16, 4096);
    assert_eq!(decrypt_all(&vec![6u8; 32], &file), Err(CtbError::Decryption));
}

#[test]
fn malformed_separator_is_refused() {
    let mut dec = ReaderDecryptor::<ChaCha20Poly1305>::new(vec![0u8; 32]);
    dec.set_header_chunk_size(16);
    assert_eq!(dec.accept_chunk(&[0, 0, 1, 0], Some(&[1, 2, 3])), Err(CtbError::ChunkHeader(0, 0, 1, 0)));
    assert_eq!(read_chunk_header(&[0, 0, 1]), Err(CtbError::ChunkHeader(0, 0, 1, 0)));
}

#[test]
fn end_of_source_stops_decryption() {
    let mut dec = ReaderDecryptor::<ChaCha20Poly1305>::new(vec![0u8; 32]);
    assert!(dec.needs_header());
    dec.set_header_chunk_size(16);
    assert!(!dec.needs_header());
    assert_eq!(dec.chunk_read_len(), 16 + TAG_SIZE);
    assert_eq!(dec.accept_chunk(&[], Some(&[])), Ok(false));
    assert!(dec.take(10).is_empty());
}

#[test]
fn failed_chunk_read_counts_as_empty_chunk() {
    let mut dec = ReaderDecryptor::<ChaCha20Poly1305>::new(vec![0u8; 32]);
    dec.set_header_chunk_size(16);
    assert_eq!(dec.accept_chunk(&[0, 0, 0, 0], None), Err(CtbError::Decryption));
}

#[test]
fn decryptor_hands_out_in_requested_sizes() {
    let key = vec![2u8; 32];
    let nonce0 = vec![0u8; 12];
    let sealed = ChaCha20Poly1305::encrypt(&key, &nonce0, b"0123456789").unwrap();
    let mut dec = ReaderDecryptor::<ChaCha20Poly1305>::new(key.clone());
    dec.set_header_chunk_size(10);
    assert!(dec.wants_chunk(4));
    assert_eq!(dec.accept_chunk(&[0, 0, 0, 0], Some(&sealed)), Ok(true));
    assert!(!dec.wants_chunk(4));
    assert_eq!(dec.take(4), b"0123".to_vec());
    assert_eq!(dec.take(4), b"4567".to_vec());
    assert_eq!(dec.take(4), b"89".to_vec());
}

#[test]
fn header_is_written_again_while_no_chunk_was_read() {
    let key = vec![1u8; 32];
    let enc = Encryptor::new("c".to_string(), 16);
    let mut gen = enc.encrypt::<ChaCha20Poly1305>("f".to_string(), &key, "r".to_string(), NAME).unwrap();
    gen.begin_read().unwrap();
    let first = gen.finish_read(4);
    gen.begin_read().unwrap();
    let again = gen.finish_read(usize::MAX);
    assert_eq!(first.len(), 4);
    assert_eq!(first[0], 1);
    assert_eq!(first[3], b'{');
    let header_len = first[1] as usize + 256 * first[2] as usize;
    assert_eq!(again.len(), (header_len + 3 - 4) + (header_len + 3));
    assert_eq!(&again[header_len - 1..header_len + 2], &first[..3]);
}

#[test]
fn xchacha_seals_and_opens() {
    let key = vec![4u8; 32];
    let nonce = vec![8u8; 24];
    let sealed = XChaCha20Poly1305::encrypt(&key, &nonce, b"data key").unwrap();
    assert_eq!(sealed.len(), 8 + TAG_SIZE);
    assert_eq!(XChaCha20Poly1305::decrypt(&key, &nonce, &sealed).unwrap(), b"data key".to_vec());
    assert_eq!(XChaCha20Poly1305::decrypt(&key, &nonce, &sealed[..10]), Err(CtbError::Decryption));
    assert_eq!(XChaCha20Poly1305::decrypt(&key, &nonce, &[1, 2]), Err(CtbError::Decryption));
}
