use vstd::prelude::*;
use vstd::string::*;
use vstd::utf8::encode_utf8;
use crate::crypto::{Crypto, MAX_PLAINTEXT_LEN};
use crate::error::CtbError;
use crate::generic_array::{ToGenericArray, UuidBytes, uuid_array};
use crate::json::{json_quote, json_string};
use crate::text::{base64_decoding, base64_encode_bytes, base64_encoding, base64_input_fits};
use crate::type_names::{type_name_of, type_name_of_spec};

verus! {

/// The version of a data-key recovery record's layout.
#[derive(Debug, Clone, Copy, PartialEq, Eq, Structural)]
pub enum RecoveryVersion {
    V1,
}

/// A data key sealed under the root key, as written in a recovery blob.
pub struct Recovery {
    pub version: RecoveryVersion,
    pub alg: String,
    pub nonce: String,
    pub cipher: String,
}

/// The JSON object that a data-key recovery record is written as.
pub open spec fn data_key_recovery_json(alg: Seq<char>, nonce: Seq<char>, cipher: Seq<char>) -> Seq<char> {
    "{\"version\":"@ + "\"V1\""@ + ",\"alg\":"@ + json_quote(alg) + ",\"nonce\":"@ + json_quote(nonce)
        + ",\"cipher\":"@ + json_quote(cipher) + "}"@
}

impl Recovery {
    /// The record as a compact JSON object, fields in declaration order.
    pub fn to_json(&self) -> (r: Result<String, CtbError>)
        ensures
            r matches Ok(t) && t@ == data_key_recovery_json(self.alg@, self.nonce@, self.cipher@),
    {
        let mut s = String::from_str("{\"version\":");
        match self.version {
            RecoveryVersion::V1 => s.append("\"V1\""),
        }
        s.append(",\"alg\":");
        let alg = match json_string(self.alg.as_str()) {
            Ok(t) => t,
            Err(_) => return Err(CtbError::Serialization),
        };
        s.append(alg.as_str());
        s.append(",\"nonce\":");
        let nonce = match json_string(self.nonce.as_str()) {
            Ok(t) => t,
            Err(_) => return Err(CtbError::Serialization),
        };
        s.append(nonce.as_str());
        s.append(",\"cipher\":");
        let cipher = match json_string(self.cipher.as_str()) {
            Ok(t) => t,
            Err(_) => return Err(CtbError::Serialization),
        };
        s.append(cipher.as_str());
        s.append("}");
        assert(s@ =~= data_key_recovery_json(self.alg@, self.nonce@, self.cipher@));
        Ok(s)
    }
}

/// The recovery blob of `key` under `root` with `nonce`: the sealed key, the
/// cipher's name and the nonce in a JSON record, written as base64.
pub open spec fn data_key_recovery_blob<C: Crypto>(
    root: Seq<u8>,
    key: Seq<u8>,
    nonce: Seq<u8>,
    cipher_type_name: Seq<char>,
) -> Result<Seq<char>, CtbError> {
    if key.len() >= MAX_PLAINTEXT_LEN {
        Err(CtbError::Encryption)
    } else {
        match type_name_of_spec(cipher_type_name) {
            Err(e) => Err(e),
            Ok(alg) => {
                let sealed = C::seal(root, nonce, key);
                if !base64_input_fits(sealed.len()) {
                    Err(CtbError::Serialization)
                } else {
                    let json = data_key_recovery_json(alg, base64_encoding(nonce), base64_encoding(sealed));
                    if base64_input_fits(encode_utf8(json).len()) {
                        Ok(base64_encoding(encode_utf8(json)))
                    } else {
                        Err(CtbError::Serialization)
                    }
                }
            },
        }
    }
}

/// What reading a data-key recovery blob back gives: the blob is base64 of
/// the UTF-8 JSON record that names the cipher and holds the nonce and the
/// sealed key in base64; each base64 field decodes back, and the sealed key
/// opens to `key` under the root key and the nonce.
pub open spec fn data_key_recovery_reads_back<C: Crypto>(
    blob: Seq<char>,
    root: Seq<u8>,
    key: Seq<u8>,
    nonce: Seq<u8>,
    cipher_type_name: Seq<char>,
) -> bool {
    match type_name_of_spec(cipher_type_name) {
        Err(_) => false,
        Ok(alg) => {
            let sealed = C::seal(root, nonce, key);
            &&& base64_decoding(blob) == Some(encode_utf8(
                data_key_recovery_json(alg, base64_encoding(nonce), base64_encoding(sealed)),
            ))
            &&& base64_decoding(base64_encoding(nonce)) == Some(nonce)
            &&& base64_decoding(base64_encoding(sealed)) == Some(sealed)
            &&& C::open(root, nonce, sealed) == Some(key)
        },
    }
}

/// Makes recovery blobs of data keys, sealed under a root key.
pub struct DataKeyRecoveryGenerator<C: Crypto> {
    root_key: Vec<u8>,
    cipher: core::marker::PhantomData<C>,
}

impl<C: Crypto> DataKeyRecoveryGenerator<C> {
    /// The root key that data keys are sealed under.
    pub closed spec fn root(&self) -> Seq<u8> {
        self.root_key@
    }

    pub fn new(root_key: &Vec<u8>) -> (r: Self)
        requires
            root_key@.len() == C::key_len(),
        ensures
            r.root() == root_key@,
    {
        DataKeyRecoveryGenerator { root_key: root_key.clone(), cipher: core::marker::PhantomData }
    }

    /// The recovery blob of `key`, sealed with `nonce`.
    pub fn with_nonce(&self, key: &[u8], nonce: &[u8], cipher_type_name: &str) -> (r: Result<String, CtbError>)
        requires
            self.root().len() == C::key_len(),
            nonce@.len() == C::nonce_len(),
        ensures
            match data_key_recovery_blob::<C>(self.root(), key@, nonce@, cipher_type_name@) {
                Ok(b) => r matches Ok(t) && t@ == b,
                Err(e) => r == Err::<String, CtbError>(e),
            },
            r matches Ok(t) ==> data_key_recovery_reads_back::<C>(t@, self.root(), key@, nonce@, cipher_type_name@),
    {
        proof {
            C::lemma_sizes();
        }
        let cipher_result = match C::encrypt(self.root_key.as_slice(), nonce, key) {
            Ok(c) => c,
            Err(_) => return Err(CtbError::Encryption),
        };
        let alg = match type_name_of(cipher_type_name) {
            Ok(a) => a,
            Err(e) => return Err(e),
        };
        let nonce_text = match base64_encode_bytes(nonce) {
            Ok(t) => t,
            Err(e) => return Err(e),
        };
        let cipher_text = match base64_encode_bytes(cipher_result.as_slice()) {
            Ok(t) => t,
            Err(e) => return Err(e),
        };
        let x = Recovery { version: RecoveryVersion::V1, alg, nonce: nonce_text, cipher: cipher_text };
        let serialized = match x.to_json() {
            Ok(s) => s,
            Err(e) => return Err(e),
        };
        base64_encode_bytes(serialized.as_str().as_bytes())
    }

    /// The recovery blob of `key`, sealed with a nonce that holds the UUID's
    /// bytes first and zeros after.
    pub fn with_uuid(&self, key: &[u8], uuid: &UuidBytes, cipher_type_name: &str) -> (r: Result<String, CtbError>)
        requires
            self.root().len() == C::key_len(),
            C::nonce_len() >= 16,
        ensures
            match data_key_recovery_blob::<C>(self.root(), key@, uuid_array(uuid.0, C::nonce_len()), cipher_type_name@) {
                Ok(b) => r matches Ok(t) && t@ == b,
                Err(e) => r == Err::<String, CtbError>(e),
            },
    {
        let copy = UuidBytes(uuid.0);
        let nonce = copy.to_generic_array(C::nonce_size());
        self.with_nonce(key, nonce.as_slice(), cipher_type_name)
    }

    /// The recovery blob of `key`, sealed with a fresh random nonce.
    pub fn with_rand(&self, key: &[u8], cipher_type_name: &str) -> (r: Result<String, CtbError>)
        requires
            self.root().len() == C::key_len(),
        ensures
            exists|nonce: Seq<u8>| nonce.len() == C::nonce_len()
                && match #[trigger] data_key_recovery_blob::<C>(self.root(), key@, nonce, cipher_type_name@) {
                    Ok(b) => r matches Ok(t) && t@ == b,
                    Err(e) => r == Err::<String, CtbError>(e),
                },
    {
        let nonce = C::generate_nonce();
        let r = self.with_nonce(key, nonce.as_slice(), cipher_type_name);
        proof {
            let _ = data_key_recovery_blob::<C>(self.root(), key@, nonce@, cipher_type_name@);
        }
        r
    }
}

} // verus!
