use vstd::prelude::*;
use vstd::string::*;
use vstd::utf8::encode_utf8;
use core::marker::PhantomData;
use crate::crypto::{Crypto, TAG_SIZE};
use crate::error::CtbError;
use crate::generic_array::GenericArrayFrom;
use crate::json::{json_quote, json_string};
use crate::text::{
    base64_decode, base64_decoding, base64_encode_bytes, base64_encoding, base64_input_fits, trim_spec,
};
use crate::type_names::{type_name_of, type_name_of_spec};

verus! {

/// The tag of data keys.
pub const DATA_KEY_TAG: &'static str = "DK";

/// The tag of the recovery key.
pub const RECOVERY_TAG: &'static str = "RECOVERY";

/// A key as it is stored: its id, the base64 nonce and the base64 sealed key
/// (sealed under the root key), and its tag.
pub struct SerializedKey {
    pub id: String,
    pub nonce: String,
    pub key: String,
    pub tag: String,
}

/// Where a key store keeps its sealed keys. Implemented by the storage
/// behind the store. Its answers are named, not described: `saves`,
/// `finds_id` and `finds_tag` relate a request to the answer the storage gave
/// to it. A storage that does not define them may give any answer; code
/// generic over the storage knows only that the answer it got is one of them.
/// A record found by id has that id, and one found by tag has that tag, as a
/// lookup by that column gives.
pub trait KeyStorePersist {
    /// `r` is the storage's answer to saving `serialized_key`.
    closed spec fn saves(&self, serialized_key: SerializedKey, r: Result<(), CtbError>) -> bool {
        true
    }

    /// `r` is the storage's answer to a lookup of the record with id `key_id`.
    closed spec fn finds_id(&self, key_id: Seq<char>, r: Result<Option<SerializedKey>, CtbError>) -> bool {
        true
    }

    /// `r` is the storage's answer to a lookup of a record with tag `tag`.
    closed spec fn finds_tag(&self, tag: Seq<char>, r: Result<Option<SerializedKey>, CtbError>) -> bool {
        true
    }

    fn save_key(&self, serialized_key: SerializedKey) -> (r: Result<(), CtbError>)
        ensures
            self.saves(serialized_key, r),
    ;

    fn get_key(&self, key_id: &str) -> (r: Result<Option<SerializedKey>, CtbError>)
        ensures
            self.finds_id(key_id@, r),
            r matches Ok(Some(sk)) ==> sk.id@ == key_id@,
    ;

    fn get_with_tag(&self, tag: &str) -> (r: Result<Option<SerializedKey>, CtbError>)
        ensures
            self.finds_tag(tag@, r),
            r matches Ok(Some(sk)) ==> sk.tag@ == tag@,
    ;
}

/// A key, and the blob that lets it be recovered with the recovery key.
pub struct GeneratedKey {
    pub key: Vec<u8>,
    pub recovery_blob: String,
}

/// The version of the recovery blob's layout.
#[derive(Debug, Clone, Copy, PartialEq, Eq, Structural)]
pub enum RecoveryVersion {
    V1,
}

/// What a recovery blob holds: the key sealed under the recovery key.
pub struct Recovery {
    pub version: RecoveryVersion,
    pub alg: String,
    pub nonce: String,
    pub cipher: String,
    pub id: String,
}

/// The JSON object that a recovery record with these fields is written as.
pub open spec fn recovery_json(alg: Seq<char>, nonce: Seq<char>, cipher: Seq<char>, id: Seq<char>) -> Seq<char> {
    "{\"version\":"@ + "\"V1\""@ + ",\"alg\":"@ + json_quote(alg) + ",\"nonce\":"@ + json_quote(nonce) + ",\"cipher\":"@
        + json_quote(cipher) + ",\"id\":"@ + json_quote(id) + "}"@
}

impl Recovery {
    /// The record as a compact JSON object, fields in declaration order.
    pub fn to_json(&self) -> (r: Result<String, CtbError>)
        ensures
            r matches Ok(t) && t@ == recovery_json(self.alg@, self.nonce@, self.cipher@, self.id@),
    {
        let mut s = String::from_str("{\"version\":");
        match self.version {
            RecoveryVersion::V1 => s.append("\"V1\""),
        }
        s.append(",\"alg\":");
        let alg = match json_string(self.alg.as_str()) {
            Ok(t) => t,
            Err(_) => return Err(CtbError::Serialization),
        };
        s.append(alg.as_str());
        s.append(",\"nonce\":");
        let nonce = match json_string(self.nonce.as_str()) {
            Ok(t) => t,
            Err(_) => return Err(CtbError::Serialization),
        };
        s.append(nonce.as_str());
        s.append(",\"cipher\":");
        let cipher = match json_string(self.cipher.as_str()) {
            Ok(t) => t,
            Err(_) => return Err(CtbError::Serialization),
        };
        s.append(cipher.as_str());
        s.append(",\"id\":");
        let id = match json_string(self.id.as_str()) {
            Ok(t) => t,
            Err(_) => return Err(CtbError::Serialization),
        };
        s.append(id.as_str());
        s.append("}");
        assert(s@ =~= recovery_json(self.alg@, self.nonce@, self.cipher@, self.id@));
        Ok(s)
    }
}

/// The key that a stored nonce and sealed key open to under `root`: both are
/// base64 (surrounding whitespace ignored), the nonce must have the cipher's
/// nonce length, the sealed key must authenticate, and the key must have
/// the cipher's key length.
pub open spec fn key_from_text<C: Crypto>(root: Seq<u8>, nonce_text: Seq<char>, sealed_text: Seq<char>) -> Result<Seq<u8>, CtbError> {
    match base64_decoding(trim_spec(nonce_text)) {
        None => Err(CtbError::Base64),
        Some(nonce) => if nonce.len() != C::nonce_len() {
            Err(CtbError::SizeMismatch)
        } else {
            match base64_decoding(trim_spec(sealed_text)) {
                None => Err(CtbError::Base64),
                Some(sealed) => match C::open(root, nonce, sealed) {
                    None => Err(CtbError::Decryption),
                    Some(key) => if key.len() != C::key_len() {
                        Err(CtbError::SizeMismatch)
                    } else {
                        Ok(key)
                    },
                },
            }
        },
    }
}

/// The recovery blob for `key`: the key sealed under the recovery key with
/// `nonce`, written with the cipher's name, the recovery key's id and the
/// nonce into a JSON record, which is then written as base64.
pub open spec fn recovery_blob_spec<C: Crypto>(
    recovery_id: Seq<char>,
    recovery_key: Seq<u8>,
    key: Seq<u8>,
    nonce: Seq<u8>,
    cipher_type_name: Seq<char>,
) -> Result<Seq<char>, CtbError> {
    match type_name_of_spec(cipher_type_name) {
        Err(e) => Err(e),
        Ok(alg) => {
            let json = recovery_json(
                alg,
                base64_encoding(nonce),
                base64_encoding(C::seal(recovery_key, nonce, key)),
                recovery_id,
            );
            if base64_input_fits(encode_utf8(json).len()) {
                Ok(base64_encoding(encode_utf8(json)))
            } else {
                Err(CtbError::Serialization)
            }
        },
    }
}

/// What reading a recovery blob back gives: the blob is base64 of the UTF-8
/// JSON record that names the cipher, the nonce and the sealed key in base64,
/// and the recovery key's id; each base64 field decodes back, and the sealed
/// key opens to `key` under the recovery key and the nonce.
pub open spec fn recovery_blob_reads_back<C: Crypto>(
    blob: Seq<char>,
    recovery_id: Seq<char>,
    recovery_key: Seq<u8>,
    key: Seq<u8>,
    nonce: Seq<u8>,
    cipher_type_name: Seq<char>,
) -> bool {
    match type_name_of_spec(cipher_type_name) {
        Err(_) => false,
        Ok(alg) => {
            let sealed = C::seal(recovery_key, nonce, key);
            &&& base64_decoding(blob) == Some(encode_utf8(
                recovery_json(alg, base64_encoding(nonce), base64_encoding(sealed), recovery_id),
            ))
            &&& base64_decoding(base64_encoding(nonce)) == Some(nonce)
            &&& base64_decoding(base64_encoding(sealed)) == Some(sealed)
            &&& C::open(recovery_key, nonce, sealed) == Some(key)
        },
    }
}

/// The blob that lets `key` be recovered with the recovery key.
pub fn recovery_blob<C: Crypto>(
    recovery_id: &str,
    recovery_key: &[u8],
    key: &[u8],
    nonce: &[u8],
    cipher_type_name: &str,
) -> (r: Result<String, CtbError>)
    requires
        recovery_key@.len() == C::key_len(),
        nonce@.len() == C::nonce_len(),
        key@.len() == C::key_len(),
    ensures
        match recovery_blob_spec::<C>(recovery_id@, recovery_key@, key@, nonce@, cipher_type_name@) {
            Ok(b) => r matches Ok(t) && t@ == b,
            Err(e) => r == Err::<String, CtbError>(e),
        },
        r matches Ok(t) ==> recovery_blob_reads_back::<C>(t@, recovery_id@, recovery_key@, key@, nonce@, cipher_type_name@),
{
    proof {
        C::lemma_sizes();
    }
    let cipher_result = match C::encrypt(recovery_key, nonce, key) {
        Ok(c) => c,
        Err(_) => return Err(CtbError::Encryption),
    };
    let alg = match type_name_of(cipher_type_name) {
        Ok(a) => a,
        Err(e) => return Err(e),
    };
    let nonce_text = match base64_encode_bytes(nonce) {
        Ok(t) => t,
        Err(e) => return Err(e),
    };
    let cipher_text = match base64_encode_bytes(cipher_result.as_slice()) {
        Ok(t) => t,
        Err(e) => return Err(e),
    };
    let x = Recovery {
        version: RecoveryVersion::V1,
        alg,
        id: String::from_str(recovery_id),
        nonce: nonce_text,
        cipher: cipher_text,
    };
    let serialized = match x.to_json() {
        Ok(s) => s,
        Err(e) => return Err(e),
    };
    base64_encode_bytes(serialized.as_str().as_bytes())
}

/// Keys sealed under a root key, kept by a storage.
pub struct KeyStore<C: Crypto, P: KeyStorePersist> {
    root_key: Vec<u8>,
    persist: P,
    alg: PhantomData<C>,
}

impl<C: Crypto, P: KeyStorePersist> KeyStore<C, P> {
    /// The root key that stored keys are sealed under.
    pub closed spec fn root(&self) -> Seq<u8> {
        self.root_key@
    }

    /// The storage behind the store.
    pub closed spec fn storage(&self) -> P {
        self.persist
    }

    pub closed spec fn wf(&self) -> bool {
        self.root_key@.len() == C::key_len()
    }

    pub fn new(root_key: Vec<u8>, persist: P) -> (r: Self)
        requires
            root_key@.len() == C::key_len(),
        ensures
            r.wf(),
            r.root() == root_key@,
    {
        KeyStore { root_key, persist, alg: PhantomData }
    }

    /// The base64 nonce and the base64 sealed key that `key` is stored as,
    /// sealed under the root key with `nonce`. Reading them back gives the key.
    pub fn serialize_key_pair_with_nonce(&self, key: &[u8], nonce: &[u8]) -> (r: Result<(String, String), CtbError>)
        requires
            self.wf(),
            nonce@.len() == C::nonce_len(),
            key@.len() == C::key_len(),
        ensures
            r matches Ok((n, c)) && {
                &&& n@ == base64_encoding(nonce@)
                &&& c@ == base64_encoding(C::seal(self.root(), nonce@, key@))
                &&& key_from_text::<C>(self.root(), n@, c@) == Ok::<Seq<u8>, CtbError>(key@)
            },
    {
        proof {
            C::lemma_sizes();
        }
        let ciphered = match C::encrypt(self.root_key.as_slice(), nonce, key) {
            Ok(c) => c,
            Err(_) => return Err(CtbError::Encryption),
        };
        let nonce_text = match base64_encode_bytes(nonce) {
            Ok(t) => t,
            Err(e) => return Err(e),
        };
        let key_text = match base64_encode_bytes(ciphered.as_slice()) {
            Ok(t) => t,
            Err(e) => return Err(e),
        };
        proof {
            crate::text::lemma_trim_base64_text(nonce@, nonce_text@);
            crate::text::lemma_trim_base64_text(ciphered@, key_text@);
        }
        Ok((nonce_text, key_text))
    }

    /// The stored form of `key`, sealed under the root key with a fresh nonce.
    pub fn serialize_key_pair(&self, key: &[u8]) -> (r: Result<(String, String), CtbError>)
        requires
            self.wf(),
            key@.len() == C::key_len(),
        ensures
            r matches Ok((n, c)) && key_from_text::<C>(self.root(), n@, c@) == Ok::<Seq<u8>, CtbError>(key@),
    {
        let nonce = C::generate_nonce();
        self.serialize_key_pair_with_nonce(key, nonce.as_slice())
    }

    /// The key that a stored nonce and sealed key open to.
    pub fn deserialize_key_pair(&self, nonce: &str, ciphered: &str) -> (r: Result<Vec<u8>, CtbError>)
        requires
            self.wf(),
        ensures
            match key_from_text::<C>(self.root(), nonce@, ciphered@) {
                Ok(k) => r matches Ok(v) && v@ == k,
                Err(e) => r == Err::<Vec<u8>, CtbError>(e),
            },
    {
        let nonce_vec = match base64_decode(nonce) {
            Ok(v) => v,
            Err(e) => return Err(e),
        };
        let nonce = match <Vec<u8> as GenericArrayFrom>::try_from_vec(nonce_vec, C::nonce_size()) {
            Ok(n) => n,
            Err(e) => return Err(e),
        };
        let ciphered_vec = match base64_decode(ciphered) {
            Ok(v) => v,
            Err(e) => return Err(e),
        };
        let key_vec = match C::decrypt(self.root_key.as_slice(), nonce.as_slice(), ciphered_vec.as_slice()) {
            Ok(k) => k,
            Err(_) => return Err(CtbError::Decryption),
        };
        <Vec<u8> as GenericArrayFrom>::try_from_vec(key_vec, C::key_size())
    }

    /// The stored form of `key` under `key_id` and `tag`, sealed with `nonce`.
    pub fn serialized_key(&self, key_id: &str, key: &[u8], tag: &str, nonce: &[u8]) -> (r: Result<SerializedKey, CtbError>)
        requires
            self.wf(),
            nonce@.len() == C::nonce_len(),
            key@.len() == C::key_len(),
        ensures
            r matches Ok(sk) && {
                &&& sk.id@ == key_id@
                &&& sk.tag@ == tag@
                &&& sk.nonce@ == base64_encoding(nonce@)
                &&& sk.key@ == base64_encoding(C::seal(self.root(), nonce@, key@))
                &&& key_from_text::<C>(self.root(), sk.nonce@, sk.key@) == Ok::<Seq<u8>, CtbError>(key@)
            },
    {
        let (nonce_hashed, key_hashed) = match self.serialize_key_pair_with_nonce(key, nonce) {
            Ok(p) => p,
            Err(e) => return Err(e),
        };
        Ok(SerializedKey {
            id: String::from_str(key_id),
            nonce: nonce_hashed,
            key: key_hashed,
            tag: String::from_str(tag),
        })
    }

    /// Seals `key` with a fresh nonce and hands it to the storage under
    /// `key_id` and `tag`; the storage's answer is returned.
    fn persist_key(&self, key_id: &str, key: &[u8], tag: &str) -> (r: Result<(), CtbError>)
        requires
            self.wf(),
            key@.len() == C::key_len(),
        ensures
            stored_as::<C, P>(self.storage(), self.root(), key_id@, tag@, key@, r),
    {
        let nonce = C::generate_nonce();
        let sk = match self.serialized_key(key_id, key, tag, nonce.as_slice()) {
            Ok(sk) => sk,
            Err(e) => return Err(e),
        };
        let ghost handed = sk;
        let r = self.persist.save_key(sk);
        proof {
            assert(self.storage().saves(handed, r));
        }
        r
    }

    /// Stores `key` as a data key under `key_id`: the record handed to the
    /// storage has that id, the data-key tag, and a nonce and sealed key that
    /// open to `key` under the root key; the storage's answer is returned.
    pub fn insert(&mut self, key_id: &str, key: &[u8]) -> (r: Result<(), CtbError>)
        requires
            old(self).wf(),
            key@.len() == C::key_len(),
        ensures
            final(self).wf(),
            final(self).root() == old(self).root(),
            *final(self) == *old(self),
            stored_as::<C, P>(old(self).storage(), old(self).root(), key_id@, DATA_KEY_TAG@, key@, r),
    {
        self.persist_key(key_id, key, DATA_KEY_TAG)
    }

    /// What the storage's answer to a lookup by id comes to: its error, no
    /// key, or the key that the stored nonce and sealed key open to.
    pub fn key_from_lookup(&self, lookup: Result<Option<SerializedKey>, CtbError>) -> (r: Result<Option<Vec<u8>>, CtbError>)
        requires
            self.wf(),
        ensures
            key_result_view(r) == key_lookup_outcome::<C>(self.root(), lookup),
            r matches Ok(Some(k)) ==> k@.len() == C::key_len(),
    {
        match lookup {
            Err(e) => Err(e),
            Ok(None) => Ok(None),
            Ok(Some(sk)) => match self.deserialize_key_pair(sk.nonce.as_str(), sk.key.as_str()) {
                Ok(k) => Ok(Some(k)),
                Err(e) => Err(e),
            },
        }
    }

    /// The data key stored under `key_id`, if any: the storage is asked for
    /// the record with that id, and its answer comes to its error, no key, or
    /// the key that the record's nonce and sealed key open to.
    pub fn get(&self, key_id: &str) -> (r: Result<Option<Vec<u8>>, CtbError>)
        requires
            self.wf(),
        ensures
            exists|ans: Result<Option<SerializedKey>, CtbError>| #[trigger] self.storage().finds_id(key_id@, ans)
                && (ans matches Ok(Some(sk)) ==> sk.id@ == key_id@)
                && key_result_view(r) == key_lookup_outcome::<C>(self.root(), ans),
            r matches Ok(Some(k)) ==> k@.len() == C::key_len(),
    {
        let res = self.persist.get_key(key_id);
        let ghost ans = res;
        let r = self.key_from_lookup(res);
        proof {
            assert(self.storage().finds_id(key_id@, ans));
        }
        r
    }

    /// What the storage's answer to a lookup by tag comes to: its error, no
    /// key, or the stored id with the key that the stored nonce and sealed
    /// key open to.
    pub fn tagged_key_from_lookup(&self, lookup: Result<Option<SerializedKey>, CtbError>) -> (r: Result<Option<(String, Vec<u8>)>, CtbError>)
        requires
            self.wf(),
        ensures
            tagged_result_view(r) == tagged_lookup_outcome::<C>(self.root(), lookup),
            r matches Ok(Some((_, k))) ==> k@.len() == C::key_len(),
    {
        match lookup {
            Err(e) => Err(e),
            Ok(None) => Ok(None),
            Ok(Some(sk)) => match self.deserialize_key_pair(sk.nonce.as_str(), sk.key.as_str()) {
                Ok(k) => Ok(Some((sk.id, k))),
                Err(e) => Err(e),
            },
        }
    }

    /// The key stored with `tag`, and its id, if any: the storage is asked
    /// for a record with that tag, and its answer comes to its error, no key,
    /// or the record's id with the key that its nonce and sealed key open to.
    pub fn get_with_tag(&self, tag: &str) -> (r: Result<Option<(String, Vec<u8>)>, CtbError>)
        requires
            self.wf(),
        ensures
            exists|ans: Result<Option<SerializedKey>, CtbError>| #[trigger] self.storage().finds_tag(tag@, ans)
                && (ans matches Ok(Some(sk)) ==> sk.tag@ == tag@)
                && tagged_result_view(r) == tagged_lookup_outcome::<C>(self.root(), ans),
            r matches Ok(Some((_, k))) ==> k@.len() == C::key_len(),
    {
        let res = self.persist.get_with_tag(tag);
        let ghost ans = res;
        let r = self.tagged_key_from_lookup(res);
        proof {
            assert(self.storage().finds_tag(tag@, ans));
        }
        r
    }

    /// The recovery key and its id, if one is stored: `get_with_tag` with the
    /// recovery tag. A failed lookup is not a missing key: the storage's
    /// error is returned, never `Ok(None)`, and a caller that cannot go on
    /// without the recovery key stops on it.
    pub fn get_recovery_key(&self) -> (r: Result<Option<(String, Vec<u8>)>, CtbError>)
        requires
            self.wf(),
        ensures
            exists|ans: Result<Option<SerializedKey>, CtbError>| #[trigger] self.storage().finds_tag(RECOVERY_TAG@, ans)
                && (ans matches Ok(Some(sk)) ==> sk.tag@ == RECOVERY_TAG@)
                && tagged_result_view(r) == tagged_lookup_outcome::<C>(self.root(), ans),
            r matches Ok(Some((_, k))) ==> k@.len() == C::key_len(),
    {
        self.get_with_tag(RECOVERY_TAG)
    }

    /// Stores `key` as the recovery key under `id`, unless one is stored
    /// already: the recovery-key lookup's error is returned, a recovery key
    /// found gives `RecoveryKeyExists`, and otherwise the record is handed to
    /// the storage as `insert` does, with the recovery tag.
    pub fn set_recover_key(&mut self, id: &str, key: &[u8]) -> (r: Result<(), CtbError>)
        requires
            old(self).wf(),
            key@.len() == C::key_len(),
        ensures
            final(self).wf(),
            final(self).root() == old(self).root(),
            *final(self) == *old(self),
            exists|ans: Result<Option<SerializedKey>, CtbError>| #[trigger] old(self).storage().finds_tag(RECOVERY_TAG@, ans)
                && (ans matches Ok(Some(sk)) ==> sk.tag@ == RECOVERY_TAG@)
                && match tagged_lookup_outcome::<C>(old(self).root(), ans) {
                    Err(e) => r == Err::<(), CtbError>(e),
                    Ok(Some(_)) => r == Err::<(), CtbError>(CtbError::RecoveryKeyExists),
                    Ok(None) => stored_as::<C, P>(old(self).storage(), old(self).root(), id@, RECOVERY_TAG@, key@, r),
                },
    {
        match self.get_recovery_key() {
            Err(e) => Err(e),
            Ok(Some(_)) => Err(CtbError::RecoveryKeyExists),
            Ok(None) => self.persist_key(id, key, RECOVERY_TAG),
        }
    }

    /// What a recovery-key lookup comes to for `key`: no recovery key is an
    /// error, otherwise the recovery blob under the recovery key found.
    pub fn recovery_blob_from_lookup(
        &self,
        recovery: Result<Option<(String, Vec<u8>)>, CtbError>,
        key: &[u8],
        nonce: &[u8],
        cipher_type_name: &str,
    ) -> (r: Result<String, CtbError>)
        requires
            recovery matches Ok(Some((_, k))) ==> k@.len() == C::key_len(),
            nonce@.len() == C::nonce_len(),
            key@.len() == C::key_len(),
        ensures
            text_result_view(r) == blob_from_recovery::<C>(tagged_result_view(recovery), key@, nonce@, cipher_type_name@),
            r matches Ok(t) ==> blob_reads_back_from::<C>(t@, tagged_result_view(recovery), key@, nonce@, cipher_type_name@),
    {
        match recovery {
            Err(e) => Err(e),
            Ok(None) => Err(CtbError::NoRecoveryKey),
            Ok(Some((recovery_id, recovery_key))) => recovery_blob::<C>(
                recovery_id.as_str(),
                recovery_key.as_slice(),
                key,
                nonce,
                cipher_type_name,
            ),
        }
    }

    /// The blob that lets `key` be recovered with the stored recovery key,
    /// sealed with `nonce`: the storage is asked for the record with the
    /// recovery tag; its error is returned, no record gives `NoRecoveryKey`,
    /// and otherwise the blob is sealed under the key that the record opens
    /// to and names the record's id. A failed lookup stops here: its error is
    /// returned and no blob is made.
    pub fn generate_recovery_blob(&self, key: &[u8], nonce: &[u8], cipher_type_name: &str) -> (r: Result<String, CtbError>)
        requires
            self.wf(),
            nonce@.len() == C::nonce_len(),
            key@.len() == C::key_len(),
        ensures
            exists|ans: Result<Option<SerializedKey>, CtbError>| #[trigger] self.storage().finds_tag(RECOVERY_TAG@, ans)
                && (ans matches Ok(Some(sk)) ==> sk.tag@ == RECOVERY_TAG@)
                && text_result_view(r) == blob_from_recovery::<C>(
                    tagged_lookup_outcome::<C>(self.root(), ans),
                    key@,
                    nonce@,
                    cipher_type_name@,
                )
                && (r matches Ok(t) ==> blob_reads_back_from::<C>(
                    t@,
                    tagged_lookup_outcome::<C>(self.root(), ans),
                    key@,
                    nonce@,
                    cipher_type_name@,
                )),
    {
        let recovery = self.get_recovery_key();
        self.recovery_blob_from_lookup(recovery, key, nonce, cipher_type_name)
    }

    /// A fresh data key with its recovery blob, the key stored under
    /// `key_id`: the blob is made as `generate_recovery_blob` makes it with a
    /// fresh nonce, and only if that succeeds is the key handed to the
    /// storage as `insert` does; the storage's error is returned.
    pub fn generate_key_pair(&mut self, key_id: &str, cipher_type_name: &str) -> (r: Result<GeneratedKey, CtbError>)
        requires
            old(self).wf(),
        ensures
            final(self).wf(),
            final(self).root() == old(self).root(),
            *final(self) == *old(self),
            r matches Ok(g) ==> g.key@.len() == C::key_len(),
            r matches Ok(g) ==> exists|sk: SerializedKey| #[trigger] old(self).storage().saves(sk, Ok(()))
                && sk.id@ == key_id@
                && sk.tag@ == DATA_KEY_TAG@
                && key_from_text::<C>(old(self).root(), sk.nonce@, sk.key@) == Ok::<Seq<u8>, CtbError>(g.key@),
            exists|key: Seq<u8>, nonce: Seq<u8>, ans: Result<Option<SerializedKey>, CtbError>|
                #![trigger generated_with::<C, P>(old(self).storage(), old(self).root(), key_id@, cipher_type_name@, key, nonce, ans, r)]
                generated_with::<C, P>(old(self).storage(), old(self).root(), key_id@, cipher_type_name@, key, nonce, ans, r),
    {
        let key = C::generate_key();
        let nonce = C::generate_nonce();
        let blob = match self.generate_recovery_blob(key.as_slice(), nonce.as_slice(), cipher_type_name) {
            Ok(b) => b,
            Err(e) => {
                proof {
                    let ans = choose|ans: Result<Option<SerializedKey>, CtbError>| #[trigger] self.storage().finds_tag(RECOVERY_TAG@, ans)
                        && (ans matches Ok(Some(sk)) ==> sk.tag@ == RECOVERY_TAG@)
                        && text_result_view(Err::<String, CtbError>(e)) == blob_from_recovery::<C>(
                            tagged_lookup_outcome::<C>(self.root(), ans), key@, nonce@, cipher_type_name@);
                    assert(generated_with::<C, P>(self.storage(), self.root(), key_id@, cipher_type_name@, key@, nonce@, ans, Err::<GeneratedKey, CtbError>(e)));
                }
                return Err(e);
            },
        };
        let ghost ans = choose|ans: Result<Option<SerializedKey>, CtbError>| #[trigger] self.storage().finds_tag(RECOVERY_TAG@, ans)
            && (ans matches Ok(Some(sk)) ==> sk.tag@ == RECOVERY_TAG@)
            && text_result_view(Ok::<String, CtbError>(blob)) == blob_from_recovery::<C>(
                tagged_lookup_outcome::<C>(self.root(), ans), key@, nonce@, cipher_type_name@);
        let ghost before = *self;
        let saved = self.insert(key_id, key.as_slice());
        let ghost saved_answer = saved;
        let r = match saved {
            Ok(()) => Ok(GeneratedKey { key, recovery_blob: blob }),
            Err(e) => Err(e),
        };
        proof {
            assert(stored_as::<C, P>(before.storage(), before.root(), key_id@, DATA_KEY_TAG@, key@, saved_answer));
            assert(generated_with::<C, P>(before.storage(), before.root(), key_id@, cipher_type_name@, key@, nonce@, ans, r));
            if r is Ok {
                lemma_generated_key_stored_as_data_key::<C, P>(
                    before.storage(), before.root(), key_id@, cipher_type_name@, key@, nonce@, ans, r->Ok_0);
            }
        }
        r
    }
}

/// `r` is the storage's answer to saving a record with id `key_id` and tag
/// `tag` whose nonce and sealed key open to `key` under `root`.
pub open spec fn stored_as<C: Crypto, P: KeyStorePersist>(
    persist: P,
    root: Seq<u8>,
    key_id: Seq<char>,
    tag: Seq<char>,
    key: Seq<u8>,
    r: Result<(), CtbError>,
) -> bool {
    exists|sk: SerializedKey| #[trigger] persist.saves(sk, r) && sk.id@ == key_id && sk.tag@ == tag
        && key_from_text::<C>(root, sk.nonce@, sk.key@) == Ok::<Seq<u8>, CtbError>(key)
}

/// A key lookup result with its key as a sequence.
pub open spec fn key_result_view(r: Result<Option<Vec<u8>>, CtbError>) -> Result<Option<Seq<u8>>, CtbError> {
    match r {
        Err(e) => Err(e),
        Ok(None) => Ok(None),
        Ok(Some(k)) => Ok(Some(k@)),
    }
}

/// A tagged lookup result with its id and key as sequences.
pub open spec fn tagged_result_view(r: Result<Option<(String, Vec<u8>)>, CtbError>) -> Result<Option<(Seq<char>, Seq<u8>)>, CtbError> {
    match r {
        Err(e) => Err(e),
        Ok(None) => Ok(None),
        Ok(Some((id, k))) => Ok(Some((id@, k@))),
    }
}

/// A text result with its text as a sequence.
pub open spec fn text_result_view(r: Result<String, CtbError>) -> Result<Seq<char>, CtbError> {
    match r {
        Err(e) => Err(e),
        Ok(t) => Ok(t@),
    }
}

/// What a storage answer to a lookup comes to under `root`: its error, no
/// key, or the key that the record's nonce and sealed key open to.
pub open spec fn key_lookup_outcome<C: Crypto>(root: Seq<u8>, ans: Result<Option<SerializedKey>, CtbError>) -> Result<Option<Seq<u8>>, CtbError> {
    match ans {
        Err(e) => Err(e),
        Ok(None) => Ok(None),
        Ok(Some(sk)) => match key_from_text::<C>(root, sk.nonce@, sk.key@) {
            Ok(k) => Ok(Some(k)),
            Err(e) => Err(e),
        },
    }
}

/// As `key_lookup_outcome`, with the record's id beside the key.
pub open spec fn tagged_lookup_outcome<C: Crypto>(root: Seq<u8>, ans: Result<Option<SerializedKey>, CtbError>) -> Result<Option<(Seq<char>, Seq<u8>)>, CtbError> {
    match ans {
        Err(e) => Err(e),
        Ok(None) => Ok(None),
        Ok(Some(sk)) => match key_from_text::<C>(root, sk.nonce@, sk.key@) {
            Ok(k) => Ok(Some((sk.id@, k))),
            Err(e) => Err(e),
        },
    }
}

/// The recovery blob that a recovery-key lookup result comes to: its error,
/// `NoRecoveryKey` where none was found, or the blob under the key found.
pub open spec fn blob_from_recovery<C: Crypto>(
    recovery: Result<Option<(Seq<char>, Seq<u8>)>, CtbError>,
    key: Seq<u8>,
    nonce: Seq<u8>,
    cipher_type_name: Seq<char>,
) -> Result<Seq<char>, CtbError> {
    match recovery {
        Err(e) => Err(e),
        Ok(None) => Err(CtbError::NoRecoveryKey),
        Ok(Some((id, recovery_key))) => recovery_blob_spec::<C>(id, recovery_key, key, nonce, cipher_type_name),
    }
}

/// A blob made from a recovery-key lookup result reads back under the
/// recovery key found.
pub open spec fn blob_reads_back_from<C: Crypto>(
    blob: Seq<char>,
    recovery: Result<Option<(Seq<char>, Seq<u8>)>, CtbError>,
    key: Seq<u8>,
    nonce: Seq<u8>,
    cipher_type_name: Seq<char>,
) -> bool {
    match recovery {
        Ok(Some((id, recovery_key))) => recovery_blob_reads_back::<C>(blob, id, recovery_key, key, nonce, cipher_type_name),
        _ => false,
    }
}

/// `r` is what generating a key pair under `key_id` comes to with fresh key
/// `key` and nonce `nonce`, where the storage answered the recovery-key
/// lookup with `ans`: the blob's error, or, with the blob made, the storage's
/// answer to saving the key as a data key.
pub open spec fn generated_with<C: Crypto, P: KeyStorePersist>(
    persist: P,
    root: Seq<u8>,
    key_id: Seq<char>,
    cipher_type_name: Seq<char>,
    key: Seq<u8>,
    nonce: Seq<u8>,
    ans: Result<Option<SerializedKey>, CtbError>,
    r: Result<GeneratedKey, CtbError>,
) -> bool {
    &&& key.len() == C::key_len()
    &&& nonce.len() == C::nonce_len()
    &&& persist.finds_tag(RECOVERY_TAG@, ans)
    &&& (ans matches Ok(Some(sk)) ==> sk.tag@ == RECOVERY_TAG@)
    &&& match blob_from_recovery::<C>(tagged_lookup_outcome::<C>(root, ans), key, nonce, cipher_type_name) {
        Err(e) => r == Err::<GeneratedKey, CtbError>(e),
        Ok(b) => exists|saved: Result<(), CtbError>| #[trigger] stored_as::<C, P>(persist, root, key_id, DATA_KEY_TAG@, key, saved)
            && match saved {
                Err(e) => r == Err::<GeneratedKey, CtbError>(e),
                Ok(()) => r matches Ok(g) && g.key@ == key && g.recovery_blob@ == b,
            },
    }
}

/// What a write hands to the storage reads back: where a lookup answers
/// with a record that `insert` or `set_recover_key` handed over for `key`
/// (see `stored_as`), `get` and `get_with_tag` come to `key`, with the
/// record's id.
pub proof fn lemma_stored_key_reads_back<C: Crypto>(root: Seq<u8>, sk: SerializedKey, key: Seq<u8>)
    requires
        key_from_text::<C>(root, sk.nonce@, sk.key@) == Ok::<Seq<u8>, CtbError>(key),
    ensures
        key_lookup_outcome::<C>(root, Ok(Some(sk))) == Ok::<Option<Seq<u8>>, CtbError>(Some(key)),
        tagged_lookup_outcome::<C>(root, Ok(Some(sk))) == Ok::<Option<(Seq<char>, Seq<u8>)>, CtbError>(Some((sk.id@, key))),
{
}

/// A generated key pair is stored as a data key: where generating a key pair
/// succeeds, the storage took a record with the key's id, the data-key tag,
/// and a nonce and sealed key that open to the generated key under the root
/// key.
pub proof fn lemma_generated_key_stored_as_data_key<C: Crypto, P: KeyStorePersist>(
    persist: P,
    root: Seq<u8>,
    key_id: Seq<char>,
    cipher_type_name: Seq<char>,
    key: Seq<u8>,
    nonce: Seq<u8>,
    ans: Result<Option<SerializedKey>, CtbError>,
    g: GeneratedKey,
)
    requires
        generated_with::<C, P>(persist, root, key_id, cipher_type_name, key, nonce, ans, Ok(g)),
    ensures
        exists|sk: SerializedKey| #[trigger] persist.saves(sk, Ok(()))
            && sk.id@ == key_id
            && sk.tag@ == DATA_KEY_TAG@
            && key_from_text::<C>(root, sk.nonce@, sk.key@) == Ok::<Seq<u8>, CtbError>(g.key@),
{
    let r = Ok::<GeneratedKey, CtbError>(g);
    let blob = blob_from_recovery::<C>(tagged_lookup_outcome::<C>(root, ans), key, nonce, cipher_type_name);
    assert(blob is Ok);
    let b = blob->Ok_0;
    assert(exists|saved: Result<(), CtbError>| #[trigger] stored_as::<C, P>(persist, root, key_id, DATA_KEY_TAG@, key, saved)
        && match saved {
            Err(e) => r == Err::<GeneratedKey, CtbError>(e),
            Ok(()) => r matches Ok(g) && g.key@ == key && g.recovery_blob@ == b,
        });
    let saved = choose|saved: Result<(), CtbError>| #[trigger] stored_as::<C, P>(persist, root, key_id, DATA_KEY_TAG@, key, saved)
        && match saved {
            Err(e) => r == Err::<GeneratedKey, CtbError>(e),
            Ok(()) => r matches Ok(g) && g.key@ == key && g.recovery_blob@ == b,
        };
    assert(stored_as::<C, P>(persist, root, key_id, DATA_KEY_TAG@, key, saved));
    match saved {
        Err(e) => {
            assert(r == Err::<GeneratedKey, CtbError>(e));
            assert(false);
        },
        Ok(u) => {
            assert(u == ());
        },
    }
    assert(saved == Ok::<(), CtbError>(()));
    assert(g.key@ == key);
    let sk = choose|sk: SerializedKey| #[trigger] persist.saves(sk, saved) && sk.id@ == key_id && sk.tag@ == DATA_KEY_TAG@
        && key_from_text::<C>(root, sk.nonce@, sk.key@) == Ok::<Seq<u8>, CtbError>(key);
    assert(persist.saves(sk, Ok(())));
}

} // verus!
