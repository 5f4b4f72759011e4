use ctb_crypt::error::CtbError;
use ctb_crypt::file_format::{
    read_context, read_context_size, read_chunk_header, read_file_header, read_file_version, read_header, write_context, EncryptionFileHeader,
    EncryptionFileHeaderVersion, DEFAULT_CHUNK_SIZE, ENCRYPTED_FILE_VERSION,
};

fn sample_header() -> EncryptionFileHeader {
    EncryptionFileHeader {
        version: EncryptionFileHeaderVersion::V1,
        alg: "ChaChaPoly1305".to_string(),
        client_id: "client-id".to_string(),
        file_id: "f1".to_string(),
        chunk_size: 16,
        recovery: "blob".to_string(),
    }
}

#[test]
fn header_json_is_compact_and_in_field_order() {
    let json = sample_header().to_json().unwrap();
    assert_eq!(
        json,
        "{\"version\":\"V1\",\"alg\":\"ChaChaPoly1305\",\"client_id\":\"client-id\",\"file_id\":\"f1\",\"chunk_size\":16,\"recovery\":\"blob\"}"
    );
}

#[test]
fn header_json_escapes_quotes_and_controls() {
    let mut h = sample_header();
    h.client_id = "a\"b\\c\nd\u{1}".to_string();
    let json = h.to_json().unwrap();
    assert!(json.contains("\"client_id\":\"a\\\"b\\\\c\\nd\\u0001\""));
}

#[test]
fn default_header_has_default_chunk_size_and_empty_ids() {
    let h = EncryptionFileHeader::default_for("chacha20poly1305::ChaChaPoly1305<chacha20::ChaCha20, U12>");
    assert_eq!(h.version, EncryptionFileHeaderVersion::V1);
    assert_eq!(h.alg, "ChaChaPoly1305");
    assert_eq!(h.chunk_size, DEFAULT_CHUNK_SIZE);
    assert_eq!(h.client_id, "");
    assert_eq!(h.file_id, "");
    assert_eq!(h.recovery, "");
}

#[test]
fn write_context_prefixes_little_endian_length() {
    let mut buffer = vec![9u8];
    write_context(&mut buffer, "abc");
    assert_eq!(buffer, vec![9, 3, 0, b'a', b'b', b'c']);
}

#[test]
fn write_context_length_of_300_bytes() {
    let text = "x".repeat(300);
    let mut buffer = Vec::new();
    write_context(&mut buffer, &text);
    assert_eq!(&buffer[..2], &[44u8, 1u8]);
    assert_eq!(buffer.len(), 302);
}

#[test]
fn file_header_reads_back() {
    let json = sample_header().to_json().unwrap();
    let mut file = vec![ENCRYPTED_FILE_VERSION];
    write_context(&mut file, &json);
    file.extend_from_slice(&[0, 0, 0, 0, 7, 7]);
    let (context, consumed) = read_file_header(&file).unwrap();
    assert_eq!(context, json.as_bytes().to_vec());
    assert_eq!(consumed, 3 + json.len());
}

#[test]
fn read_file_version_rejects_other_versions_and_empty_input() {
    assert_eq!(read_file_version(&[1, 5]), Ok(1));
    assert_eq!(read_file_version(&[2]), Err(CtbError::FileVersion));
    assert_eq!(read_file_version(&[]), Err(CtbError::FileVersion));
}

#[test]
fn read_header_errors() {
    assert_eq!(read_header(&[5]), Err(CtbError::ContextSize));
    assert_eq!(read_header(&[5, 0, b'a', b'b']), Err(CtbError::Context));
    assert_eq!(read_header(&[2, 0, b'a', b'b', b'c']), Ok((vec![b'a', b'b'], 4)));
}

#[test]
fn read_file_header_reports_first_error() {
    assert_eq!(read_file_header(&[0, 2, 0, 1, 2]), Err(CtbError::FileVersion));
    assert_eq!(read_file_header(&[1, 2]), Err(CtbError::ContextSize));
}

#[test]
fn read_chunk_header_cases() {
    assert_eq!(read_chunk_header(&[]), Ok(0));
    assert_eq!(read_chunk_header(&[0, 0, 0, 0]), Ok(4));
    assert_eq!(read_chunk_header(&[0, 0, 0, 0, 9]), Ok(4));
    assert_eq!(read_chunk_header(&[0, 0]), Err(CtbError::ChunkHeader(0, 0, 0, 0)));
    assert_eq!(read_chunk_header(&[0, 1, 0, 0]), Err(CtbError::ChunkHeader(0, 1, 0, 0)));
}

#[test]
fn context_size_and_context_reads() {
    assert_eq!(read_context_size(&[0x2c, 0x01]), Ok(300));
    assert_eq!(read_context_size(&[0x2c]), Err(CtbError::ContextSize));
    assert_eq!(read_context(b"abc", 3), Ok(b"abc".to_vec()));
    assert_eq!(read_context(b"ab", 3), Err(CtbError::Context));
}
