//! The read-side and write-side capability interfaces, and the local
//! endpoints' data.
//!
//! Any backend that can list, hash, read and inspect files may serve as a
//! source; any backend that can test, hash, create and copy may serve as a
//! sink. The engines work against these interfaces alone; only the locality
//! tag (see the backend module) ever inspects a concrete endpoint. The
//! implementations that touch a disk or a network live with their I/O,
//! outside the library, and hand the engines plain values.

use vstd::prelude::*;
use crate::errors::SyncError;

verus! {

/// The read side of a transfer: what the engines ask of the place the bytes
/// come from. Implementations live with their I/O, outside the library.
pub trait Source: Send + Sync {
    /// Every file under the source's root that the filters keep, with its
    /// size in bytes.
    fn list_files(&self, inclusion: Option<String>, exclusion: Option<String>) -> Vec<
        (String, u64),
    >;

    /// The content digest of one file, where it can be read and hashed.
    fn get_file_hash(&self, path: &String) -> Option<String>;

    /// The content digests of many files: one pair per path that could be
    /// hashed.
    fn get_file_hashes(&self, paths: &Vec<String>) -> (r: Vec<(String, String)>)
        ensures
            r@.len() <= paths@.len(),
    {
        let mut r: Vec<(String, String)> = Vec::new();
        let n = paths.len();
        for i in 0..n
            invariant
                n == paths@.len(),
                r@.len() <= i,
            decreases n - i,
        {
            match self.get_file_hash(&paths[i]) {
                Some(h) => {
                    r.push((paths[i].clone(), h));
                },
                None => {},
            }
        }
        r
    }

    /// One file's whole content.
    fn read_file(&self, path: &String) -> Result<Vec<u8>, SyncError>;

    /// Whether the path is a symlink.
    fn is_symlink(&self, path: &String) -> bool;

    /// The target of a symlink, verbatim, never resolved.
    fn read_link(&self, path: &String) -> Result<String, SyncError>;
}

/// The write side of a transfer: what the engines ask of the place the
/// bytes go. Implementations live with their I/O, outside the library.
pub trait Sink: Send + Sync {
    /// Whether a file already exists at the destination path.
    fn file_exists(&self, path: &String) -> bool;

    /// The content digest of one destination file, where it can be read and
    /// hashed.
    fn get_file_hash(&self, path: &String) -> Option<String>;

    /// Write one file's whole content, creating parent directories as
    /// needed.
    fn write_file(&self, path: &String, content: &[u8]) -> Result<(), SyncError>;

    /// Create a directory and its parents; existing directories are fine.
    fn create_dir(&self, path: &String) -> Result<(), SyncError>;

    /// Create a symlink at `link` pointing at `target`, verbatim.
    fn create_symlink(&self, target: &String, link: &String) -> Result<(), SyncError>;

    /// Copy one file from a source path to a destination path.
    fn copy_file(&self, source_path: &String, dest_path: &String) -> Result<(), SyncError>;
}

/// The local filesystem as a read side: its data is the root everything is
/// read under.
pub struct LocalSource {
    root: String,
}

impl LocalSource {
    /// The root everything is read under.
    pub closed spec fn root_spec(&self) -> Seq<char> {
        self.root@
    }

    /// A local source at the given root path.
    pub fn new(root: String) -> (s: LocalSource)
        ensures
            s.root_spec() == root@,
    {
        LocalSource { root }
    }

    /// The root everything is read under.
    pub fn root(&self) -> (r: &String)
        ensures
            r@ == self.root_spec(),
    {
        &self.root
    }
}

/// The local filesystem as a write side: its data is the root everything is
/// written under.
pub struct LocalSink {
    root: String,
}

impl LocalSink {
    /// The root everything is written under.
    pub closed spec fn root_spec(&self) -> Seq<char> {
        self.root@
    }

    /// A local sink at the given root path.
    pub fn new(root: String) -> (s: LocalSink)
        ensures
            s.root_spec() == root@,
    {
        LocalSink { root }
    }

    /// The root everything is written under.
    pub fn root(&self) -> (r: &String)
        ensures
            r@ == self.root_spec(),
    {
        &self.root
    }
}

} // verus!
