# ctb_crypt

Client-side encryption for files kept in object storage: files are sealed
chunk by chunk with ChaCha20-Poly1305 under per-file data keys, data keys are
sealed under a root key and kept in a key store, and each data key comes with
a recovery blob sealed under a separate recovery key.

Layout:

- `src/` is the library, written in Verus. Every function there carries a
  contract that Verus proves. Calls into outside crates (the AEAD ciphers,
  base64, serde_json string escaping, regex, HMAC-SHA3, big integers, a few
  `str` methods) sit behind small trusted wrappers whose contracts say what
  the crates document.
  - `file_format`, `encrypt_file`, `decrypt_file`, `roundtrip`: the encrypted
    file layout, the encrypting and decrypting state machines, and the proof
    that decrypting an encrypted file gives the plaintext back.
  - `nonce`, `bytes`: the little-endian nonce counter that advances per chunk.
  - `keystore`, `data_key_recovery`, `key_drive`: sealing and opening stored
    keys, recovery blobs, and key derivation.
  - `keymap`, `hash_map_serde`, `serializable`: in-memory key maps and their
    text forms, with read-back laws.
  - `storage`: the decisions of multipart uploads and downloads.
- `app/` is the program around the library: file and network I/O, SQLite
  persistence, S3 transfers, and the loops that feed the library's state
  machines.
- `tests/` runs the library on concrete values.
