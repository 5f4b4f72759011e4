use vstd::prelude::*;
use core::marker::PhantomData;
use vstd::utf8::encode_utf8;
use crate::crypto::{Crypto, MAX_PLAINTEXT_LEN, encrypt_chunk};
use crate::encrypt_file::{EncryptedFileGenerator, chunk_sealed};
use crate::error::CtbError;
use crate::file_format::{EncryptionFileHeader, EncryptionFileHeaderVersion, header_json_text};
use crate::nonce::{counter_nonce, increase_bytes_le, lemma_counter_nonce_step, lemma_zero_nonce};
use crate::type_names::{type_name_or_default, type_name_or_default_spec};

verus! {

/// Encrypts files for one client, in chunks of a fixed size.
pub struct Encryptor {
    pub client_id: String,
    pub chunk_size: u64,
}

impl Encryptor {
    pub fn new(client_id: String, chunk_size: u64) -> (r: Self)
        ensures
            r.client_id@ == client_id@,
            r.chunk_size == chunk_size,
    {
        Encryptor { client_id, chunk_size }
    }

    /// A generator for the encrypted form of file `file_id` under `key`, whose
    /// header names the cipher (by the first path segment of its compiler
    /// type name), this client, the chunk size and the recovery blob.
    pub fn encrypt<C: Crypto>(&self, file_id: String, key: &Vec<u8>, recovery: String, cipher_type_name: &str) -> (r: Result<EncryptedFileGenerator<C>, CtbError>)
        requires
            key@.len() == C::key_len(),
        ensures
            r matches Ok(g) && {
                &&& g.wf()
                &&& g.key_bytes() == key@
                &&& g.header_text() == encode_utf8(header_json_text(
                    EncryptionFileHeaderVersion::V1,
                    type_name_or_default_spec(cipher_type_name@),
                    self.client_id@,
                    file_id@,
                    self.chunk_size,
                    recovery@,
                ))
                &&& g.chunk_limit() == self.chunk_size as usize as nat
                &&& g.output() == Seq::<u8>::empty()
                &&& g.handed() == Seq::<u8>::empty()
                &&& g.header_copies() == 0
                &&& g.plain_chunks() == Seq::<Seq<u8>>::empty()
                &&& g.sealed_chunks() == Seq::<Seq<u8>>::empty()
            },
    {
        let header = EncryptionFileHeader {
            version: EncryptionFileHeaderVersion::V1,
            alg: type_name_or_default(cipher_type_name),
            client_id: self.client_id.clone(),
            chunk_size: self.chunk_size,
            file_id,
            recovery,
        };
        Ok(EncryptedFileGenerator::new(key.clone(), header))
    }
}

/// Seals the chunks of a source one by one, the nonce advancing after every
/// read, whether it gave a chunk or not.
pub struct EncryptedIterator<C: Crypto> {
    key: Vec<u8>,
    nonce: Vec<u8>,
    pub chunk_size: usize,
    reads: Ghost<nat>,
    cipher: PhantomData<C>,
}

impl<C: Crypto> EncryptedIterator<C> {
    /// The key that chunks are sealed under.
    pub closed spec fn key_bytes(&self) -> Seq<u8> {
        self.key@
    }

    /// How many bytes a read of the source asks for.
    pub closed spec fn chunk_len(&self) -> nat {
        self.chunk_size as nat
    }

    /// How many reads have been taken.
    pub closed spec fn read_count(&self) -> nat {
        self.reads@
    }

    pub closed spec fn wf(&self) -> bool {
        &&& self.key@.len() == C::key_len()
        &&& self.nonce@.len() == C::nonce_len()
        &&& self.nonce@ == counter_nonce(self.reads@, C::nonce_len())
    }

    pub fn new(key: &Vec<u8>, chunk_size: usize) -> (r: Self)
        requires
            key@.len() == C::key_len(),
        ensures
            r.wf(),
            r.key_bytes() == key@,
            r.read_count() == 0,
            r.chunk_len() == chunk_size,
    {
        let nonce = vec![0u8; C::nonce_size()];
        proof {
            lemma_zero_nonce(nonce@);
        }
        EncryptedIterator { key: key.clone(), nonce, chunk_size, reads: Ghost(0), cipher: PhantomData }
    }

    /// Seals what one read of the source gave, under the nonce of this read:
    /// nothing for an empty read, the error for a failed one.
    pub fn read_bytes_encrypted(&mut self, read: Result<Vec<u8>, CtbError>) -> (r: Option<Result<Vec<u8>, CtbError>>)
        requires
            old(self).wf(),
        ensures
            final(self).wf(),
            final(self).key_bytes() == old(self).key_bytes(),
            final(self).read_count() == old(self).read_count() + 1,
            final(self).chunk_len() == old(self).chunk_len(),
            match read {
                Err(e) => r == Some(Err::<Vec<u8>, CtbError>(e)),
                Ok(b) => if b@.len() == 0 {
                    r is None
                } else if b@.len() < MAX_PLAINTEXT_LEN {
                    r matches Some(Ok(c)) && chunk_sealed::<C>(old(self).key_bytes(), old(self).read_count(), b@, c@)
                } else {
                    r == Some(Err::<Vec<u8>, CtbError>(CtbError::Encryption))
                },
            },
    {
        let ret = match read {
            Ok(bytes) => {
                if bytes.len() > 0 {
                    Some(encrypt_chunk::<C>(&bytes, &self.key, &self.nonce))
                } else {
                    None
                }
            },
            Err(e) => Some(Err(e)),
        };
        let ghost old_nonce = self.nonce@;
        increase_bytes_le(&mut self.nonce);
        proof {
            lemma_counter_nonce_step(old_nonce, self.nonce@, self.reads@);
            self.reads@ = self.reads@ + 1;
        }
        ret
    }

    /// The next sealed chunk, from a read of up to `chunk_size` bytes.
    pub fn next(&mut self, read: Result<Vec<u8>, CtbError>) -> (r: Option<Result<Vec<u8>, CtbError>>)
        requires
            old(self).wf(),
        ensures
            final(self).wf(),
            final(self).key_bytes() == old(self).key_bytes(),
            final(self).read_count() == old(self).read_count() + 1,
            final(self).chunk_len() == old(self).chunk_len(),
            match read {
                Err(e) => r == Some(Err::<Vec<u8>, CtbError>(e)),
                Ok(b) => if b@.len() == 0 {
                    r is None
                } else if b@.len() < MAX_PLAINTEXT_LEN {
                    r matches Some(Ok(c)) && chunk_sealed::<C>(old(self).key_bytes(), old(self).read_count(), b@, c@)
                } else {
                    r == Some(Err::<Vec<u8>, CtbError>(CtbError::Encryption))
                },
            },
    {
        self.read_bytes_encrypted(read)
    }
}

} // verus!
