use vstd::prelude::*;
use crate::error::CtbError;

verus! {

/// Where the paths of stored files are kept: a file's id by its path.
/// Implemented by the storage behind it. Its answers are named, not
/// described: `saves_path` and `finds_path` relate a request to the answer
/// the storage gave to it. A storage that does not define them may give any
/// answer; code generic over the storage knows only that the answer it got
/// is one of them.
pub trait FileSystem {
    /// `r` is the storage's answer to saving `path` with `key` as its file id.
    closed spec fn saves_path(&self, path: Seq<char>, key: Seq<char>, r: Result<(), CtbError>) -> bool {
        true
    }

    /// `r` is the storage's answer to a lookup of the file id of `path`.
    closed spec fn finds_path(&self, path: Seq<char>, r: Result<Option<String>, CtbError>) -> bool {
        true
    }

    fn save_path(&self, path: &str, key: &str) -> (r: Result<(), CtbError>)
        ensures
            self.saves_path(path@, key@, r),
    ;

    fn get_path(&self, path: &str) -> (r: Result<Option<String>, CtbError>)
        ensures
            self.finds_path(path@, r),
    ;
}

/// The same interface, as the storage layer names it.
pub trait FileSystemPersist {
    fn save_path(&self, path: &str, key: &str) -> Result<(), CtbError>;

    fn get_path(&self, path: &str) -> Result<Option<String>, CtbError>;
}

/// Keeps which file id a friendly path stands for.
pub struct PersistFileSystem<P: FileSystem> {
    persist: P,
}

impl<P: FileSystem> PersistFileSystem<P> {
    /// The storage behind this path store.
    pub closed spec fn storage(&self) -> P {
        self.persist
    }

    pub fn new(persist: P) -> (r: Self)
        ensures
            r.storage() == persist,
    {
        PersistFileSystem { persist }
    }

    /// Records that `path` stands for the file `id`: the storage is asked to
    /// save the path with the id as its key, and its answer is returned.
    pub fn save_path(&self, id: &str, path: &str) -> (r: Result<(), CtbError>)
        ensures
            self.storage().saves_path(path@, id@, r),
    {
        self.persist.save_path(path, id)
    }

    /// The id of the file that `path` stands for, as the storage answers.
    pub fn get_path(&self, path: &str) -> (r: Result<Option<String>, CtbError>)
        ensures
            self.storage().finds_path(path@, r),
    {
        self.persist.get_path(path)
    }
}

} // verus!
