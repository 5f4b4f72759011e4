use vstd::prelude::*;

verus! {

/// Every way in which an operation of this library can fail.
#[derive(Debug, Clone, PartialEq, Eq, Structural)]
pub enum CtbError {
    /// The cipher refused to seal a chunk or a key.
    Encryption,
    /// A sealed chunk or key did not authenticate under the key and nonce used.
    Decryption,
    /// The first byte of an encrypted file is not the supported version.
    FileVersion,
    /// Fewer than two bytes were left for the length of the file header.
    ContextSize,
    /// Fewer bytes were left than the file header's length announces.
    Context,
    /// A chunk is not preceded by four zero bytes; holds the four bytes
    /// read in their place, zero where fewer were read.
    ChunkHeader(u8, u8, u8, u8),
    /// Decoded bytes are not as long as the fixed-size value they must fill.
    SizeMismatch,
    /// A key read from a serialized key store is not as long as the store's keys.
    KeySize,
    /// A text is not valid standard base64.
    Base64,
    /// A value could not be written as JSON.
    Serialization,
    /// The cipher's type name holds no path segment to name it by.
    TypeName,
    /// No key carries the recovery tag.
    NoRecoveryKey,
    /// A recovery key is already stored and may not be replaced.
    RecoveryKeyExists,
    /// Reading the plain source failed; the message says why.
    Read,
    /// The storage behind the key store or the path store failed.
    Persistence,
}

} // verus!
