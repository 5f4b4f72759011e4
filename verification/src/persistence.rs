use vstd::prelude::*;
use crate::error::CtbError;

verus! {

/// Where a client's configuration is kept, by key. Implemented outside this
/// library; nothing is assumed of its answers.
pub trait ClientPersistence {
    fn load_client_config(config_key: String) -> Result<Option<String>, CtbError>;

    fn save_client_config(config_key: String) -> Result<String, CtbError>;
}

/// A key store's storage, in terms of the stored texts. Implemented outside
/// this library; nothing is assumed of its answers.
pub trait SerializedPersistKeyStore {
    fn save_key(&self, key_id: &str, nonce: &str, key: &str, tag: &str) -> Result<(), CtbError>;

    fn get_key(&self, key_id: &str) -> Result<Option<(String, String)>, CtbError>;

    fn get_with_tag(&self, tag: &str) -> Result<Option<(String, String, String)>, CtbError>;
}

} // verus!
