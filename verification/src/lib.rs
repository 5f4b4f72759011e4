//! Chunked authenticated encryption of files, a key store whose keys are
//! sealed under a root key, and the byte formats that tie them together.

pub mod bytes;
pub mod bignum;
pub mod nonce;
pub mod error;
pub mod crypto;
pub mod json;
pub mod text;
pub mod type_names;
pub mod file_format;
pub mod encrypt_file;
pub mod decrypt_file;
pub mod roundtrip;
pub mod encryptor;
pub mod generic_array;
pub mod keystore;
pub mod data_key_recovery;
pub mod key_drive;
pub mod file_system;
pub mod storage;
pub mod persistence;
pub mod keymap;
pub mod hash_map_serde;
pub mod serializable;
pub mod encryptor_file_generator;
pub mod stream_decryptor;
