//! Decisions of the chunked sync engine and of the hash-verified file list.
//!
//! For each discovered file the engine first tries a cheap metadata
//! short-circuit: a destination with exactly the source's size and
//! modification time is skipped without reading a byte. Otherwise an absent
//! or small destination is copied whole, and a large, present, mismatched
//! file is split into chunks. The decisions here are pure functions of the
//! metadata handed in by the traversal.

use vstd::prelude::*;
use crate::checksum::{spec_hashes_allow_skip, hashes_allow_skip};
use crate::chunk::LARGE_FILE_THRESHOLD;
use crate::paths::str_eq;
use crate::tree::{spec_path_set, lemma_path_set_push};

verus! {

/// The metadata of one file as the engine reads it: size in bytes and
/// modification time as seconds and nanoseconds.
#[derive(Clone, Copy, Debug, PartialEq, Eq, Structural)]
pub struct FileMeta {
    pub size: u64,
    pub mtime_s: i64,
    pub mtime_ns: i64,
}

/// What the sync engine does with one file.
#[derive(Clone, Copy, Debug, PartialEq, Eq, Structural)]
pub enum SyncDecision {
    /// Metadata matches exactly: touch nothing, advance progress by the
    /// file's full size.
    Skip,
    /// Destination absent or file small: copy the whole file.
    CopyWhole,
    /// Large, present, mismatched: compare and rewrite chunk by chunk.
    Chunked,
}

/// Exact metadata equality: same size, same modification time to the
/// nanosecond. No tolerance window is applied.
pub open spec fn spec_meta_unchanged(src: FileMeta, dst: FileMeta) -> bool {
    src.size == dst.size && src.mtime_s == dst.mtime_s && src.mtime_ns == dst.mtime_ns
}

/// The sync routing decision for one file, given the source metadata, the
/// destination metadata when the destination exists, and the large-file
/// threshold.
pub open spec fn spec_sync_decision(
    src: FileMeta,
    dst: Option<FileMeta>,
    threshold: u64,
) -> SyncDecision {
    match dst {
        Some(d) => if spec_meta_unchanged(src, d) {
            SyncDecision::Skip
        } else if src.size < threshold {
            SyncDecision::CopyWhole
        } else {
            SyncDecision::Chunked
        },
        None => SyncDecision::CopyWhole,
    }
}

/// Decide what to do with one file. A file is skipped exactly when the
/// destination exists with identical size and modification time; it is
/// chunked exactly when the destination exists, differs, and the file is at
/// or above the threshold.
pub fn sync_decision(src: &FileMeta, dst: &Option<FileMeta>, threshold: u64) -> (d: SyncDecision)
    ensures
        d == spec_sync_decision(*src, *dst, threshold),
        d == SyncDecision::Skip <==> (*dst matches Some(m) && spec_meta_unchanged(*src, m)),
{
    match dst {
        Some(d) => {
            if src.size == d.size && src.mtime_s == d.mtime_s && src.mtime_ns == d.mtime_ns {
                SyncDecision::Skip
            } else if src.size < threshold {
                SyncDecision::CopyWhole
            } else {
                SyncDecision::Chunked
            }
        },
        None => SyncDecision::CopyWhole,
    }
}

/// Decide with the engine's default threshold.
pub fn sync_decision_default(src: &FileMeta, dst: &Option<FileMeta>) -> (d: SyncDecision)
    ensures
        d == spec_sync_decision(*src, *dst, LARGE_FILE_THRESHOLD as u64),
{
    sync_decision(src, dst, LARGE_FILE_THRESHOLD)
}

/// What one traversal entry is, as reported by the walk.
#[derive(Clone, Copy, Debug, PartialEq, Eq, Structural)]
pub enum EntryKind {
    File,
    Directory,
    Symlink,
    OtherSpecial,
}

/// Whether the hash-verified listing keeps a traversal entry at all:
/// regular files, symlinks, and empty directories are candidates; anything
/// else is never listed.
pub open spec fn spec_listable(kind: EntryKind, is_empty_dir: bool) -> bool {
    match kind {
        EntryKind::File => true,
        EntryKind::Symlink => true,
        EntryKind::Directory => is_empty_dir,
        EntryKind::OtherSpecial => false,
    }
}

/// Whether the hash-verified listing includes an entry: it must be listable,
/// pass the filters (decided by the caller), and, for a regular file with
/// digest comparison enabled, not already match the destination by content
/// digest.
pub open spec fn spec_list_entry(
    kind: EntryKind,
    is_empty_dir: bool,
    passes_filters: bool,
    no_hashing: bool,
    src_hash: Option<Seq<char>>,
    dst_hash: Option<Seq<char>>,
) -> bool {
    &&& spec_listable(kind, is_empty_dir)
    &&& passes_filters
    &&& !(kind == EntryKind::File && !no_hashing && spec_hashes_allow_skip(src_hash, dst_hash))
}

/// Decide whether one traversal entry belongs in the list of files to sync.
/// `src_hash` and `dst_hash` carry the content digests when they were
/// fetched; a missing digest on either side never skips the entry.
pub fn list_entry(
    kind: EntryKind,
    is_empty_dir: bool,
    passes_filters: bool,
    no_hashing: bool,
    src_hash: &Option<String>,
    dst_hash: &Option<String>,
) -> (r: bool)
    ensures
        r == spec_list_entry(
            kind,
            is_empty_dir,
            passes_filters,
            no_hashing,
            match src_hash {
                Some(s) => Some(s@),
                None => None,
            },
            match dst_hash {
                Some(d) => Some(d@),
                None => None,
            },
        ),
{
    let listable = match kind {
        EntryKind::File => true,
        EntryKind::Symlink => true,
        EntryKind::Directory => is_empty_dir,
        EntryKind::OtherSpecial => false,
    };
    if !listable || !passes_filters {
        return false;
    }
    if kind == EntryKind::File && !no_hashing && hashes_allow_skip(src_hash, dst_hash) {
        return false;
    }
    true
}

/// What a sync worker does with one listed entry.
pub enum EntryAction {
    /// Create the mirrored directory (empty directories are preserved).
    CreateDir,
    /// Recreate the symlink with this target, verbatim, never resolved.
    CreateSymlink(String),
    /// The symlink's target could not be read: recreate it pointing at the
    /// original path itself, preserving the broken link.
    CreateBrokenSymlink,
    /// Copy the file's bytes.
    CopyFile,
    /// Dry run: mutate nothing.
    Nothing,
}

/// The dispatch of one listed entry: directories are created, symlinks are
/// recreated verbatim (broken ones point back at the original path), and
/// regular files are copied; a dry run does nothing at all.
pub open spec fn spec_entry_action(
    is_dir: bool,
    is_symlink: bool,
    link_target: Option<String>,
    dry_run: bool,
) -> EntryAction {
    if dry_run {
        EntryAction::Nothing
    } else if is_dir {
        EntryAction::CreateDir
    } else if is_symlink {
        match link_target {
            Some(t) => EntryAction::CreateSymlink(t),
            None => EntryAction::CreateBrokenSymlink,
        }
    } else {
        EntryAction::CopyFile
    }
}

/// Decide what a worker does with one listed entry.
pub fn entry_action(
    is_dir: bool,
    is_symlink: bool,
    link_target: Option<String>,
    dry_run: bool,
) -> (a: EntryAction)
    ensures
        a == spec_entry_action(is_dir, is_symlink, link_target, dry_run),
        dry_run ==> a matches EntryAction::Nothing,
{
    if dry_run {
        EntryAction::Nothing
    } else if is_dir {
        EntryAction::CreateDir
    } else if is_symlink {
        match link_target {
            Some(t) => EntryAction::CreateSymlink(t),
            None => EntryAction::CreateBrokenSymlink,
        }
    } else {
        EntryAction::CopyFile
    }
}

/// The outcome of holding one destination file against its source.
#[derive(Clone, Copy, Debug, PartialEq, Eq, Structural)]
pub enum Status {
    Passed,
    Failed,
}

/// Whether a compared file passes: sizes equal, both or neither a symlink,
/// and, for a regular file, both content digests present and equal.
pub open spec fn spec_compare_file(
    src_size: u64,
    dst_size: u64,
    src_is_symlink: bool,
    dst_is_symlink: bool,
    src_hash: Option<Seq<char>>,
    dst_hash: Option<Seq<char>>,
) -> Status {
    if src_size == dst_size && src_is_symlink == dst_is_symlink && (src_is_symlink
        || spec_hashes_allow_skip(src_hash, dst_hash)) {
        Status::Passed
    } else {
        Status::Failed
    }
}

/// Hold one destination file against its source: a size mismatch, a
/// symlink/regular mismatch, a digest mismatch, or a missing digest on a
/// regular file all fail the comparison.
pub fn compare_file(
    src_size: u64,
    dst_size: u64,
    src_is_symlink: bool,
    dst_is_symlink: bool,
    src_hash: &Option<String>,
    dst_hash: &Option<String>,
) -> (s: Status)
    ensures
        s == spec_compare_file(
            src_size,
            dst_size,
            src_is_symlink,
            dst_is_symlink,
            match src_hash {
                Some(h) => Some(h@),
                None => None,
            },
            match dst_hash {
                Some(h) => Some(h@),
                None => None,
            },
        ),
{
    if src_size != dst_size {
        return Status::Failed;
    }
    if src_is_symlink != dst_is_symlink {
        return Status::Failed;
    }
    if !src_is_symlink && !hashes_allow_skip(src_hash, dst_hash) {
        return Status::Failed;
    }
    Status::Passed
}

/// Whether some path of the list reads `p`.
fn contains_path(v: &Vec<String>, p: &str) -> (r: bool)
    ensures
        r == spec_path_set(v@).contains(p@),
{
    let n = v.len();
    let mut i: usize = 0;
    while i < n
        invariant
            i <= n,
            n == v@.len(),
            forall|k: int| 0 <= k < i ==> (#[trigger] v@[k])@ != p@,
        decreases n - i,
    {
        if str_eq(v[i].as_str(), p) {
            return true;
        }
        i = i + 1;
    }
    proof {
        if spec_path_set(v@).contains(p@) {
            let a = choose|a: int| 0 <= a < v@.len() && p@ == v@[a]@;
            assert(v@[a]@ != p@);
        }
    }
    false
}

/// Hold two listings against each other: the paths only the source has, the
/// paths only the destination has, and the paths both have. Every listed
/// path lands in exactly the part it belongs to.
pub fn compare_path_sets(src_paths: &Vec<String>, dst_paths: &Vec<String>) -> (r: (
    Vec<String>,
    Vec<String>,
    Vec<String>,
))
    ensures
        forall|i: int|
            0 <= i < r.0@.len() ==> spec_path_set(src_paths@).contains((#[trigger] r.0@[i])@)
                && !spec_path_set(dst_paths@).contains(r.0@[i]@),
        forall|i: int|
            0 <= i < r.1@.len() ==> spec_path_set(dst_paths@).contains((#[trigger] r.1@[i])@)
                && !spec_path_set(src_paths@).contains(r.1@[i]@),
        forall|i: int|
            0 <= i < r.2@.len() ==> spec_path_set(src_paths@).contains((#[trigger] r.2@[i])@)
                && spec_path_set(dst_paths@).contains(r.2@[i]@),
        forall|j: int|
            0 <= j < src_paths@.len() ==> spec_path_set(r.0@).contains(
                (#[trigger] src_paths@[j])@,
            ) || spec_path_set(r.2@).contains(src_paths@[j]@),
        forall|j: int|
            0 <= j < dst_paths@.len() ==> spec_path_set(r.1@).contains(
                (#[trigger] dst_paths@[j])@,
            ) || spec_path_set(r.2@).contains(dst_paths@[j]@),
{
    let mut missing: Vec<String> = Vec::new();
    let mut extra: Vec<String> = Vec::new();
    let mut common: Vec<String> = Vec::new();
    let n_src = src_paths.len();
    for j in 0..n_src
        invariant
            n_src == src_paths@.len(),
            forall|i: int|
                0 <= i < missing@.len() ==> spec_path_set(src_paths@).contains(
                    (#[trigger] missing@[i])@,
                ) && !spec_path_set(dst_paths@).contains(missing@[i]@),
            forall|i: int|
                0 <= i < common@.len() ==> spec_path_set(src_paths@).contains(
                    (#[trigger] common@[i])@,
                ) && spec_path_set(dst_paths@).contains(common@[i]@),
            forall|k: int|
                0 <= k < j ==> spec_path_set(missing@).contains((#[trigger] src_paths@[k])@)
                    || spec_path_set(common@).contains(src_paths@[k]@),
        decreases n_src - j,
    {
        let p = src_paths[j].clone();
        proof {
            assert(spec_path_set(src_paths@).contains(src_paths@[j as int]@));
        }
        if contains_path(dst_paths, p.as_str()) {
            proof {
                lemma_path_set_push(common@, p);
            }
            common.push(p);
        } else {
            proof {
                lemma_path_set_push(missing@, p);
            }
            missing.push(p);
        }
    }
    let n_dst = dst_paths.len();
    for j in 0..n_dst
        invariant
            n_dst == dst_paths@.len(),
            forall|i: int|
                0 <= i < missing@.len() ==> spec_path_set(src_paths@).contains(
                    (#[trigger] missing@[i])@,
                ) && !spec_path_set(dst_paths@).contains(missing@[i]@),
            forall|i: int|
                0 <= i < common@.len() ==> spec_path_set(src_paths@).contains(
                    (#[trigger] common@[i])@,
                ) && spec_path_set(dst_paths@).contains(common@[i]@),
            forall|i: int|
                0 <= i < extra@.len() ==> spec_path_set(dst_paths@).contains(
                    (#[trigger] extra@[i])@,
                ) && !spec_path_set(src_paths@).contains(extra@[i]@),
            forall|k: int|
                0 <= k < src_paths@.len() ==> spec_path_set(missing@).contains(
                    (#[trigger] src_paths@[k])@,
                ) || spec_path_set(common@).contains(src_paths@[k]@),
            forall|k: int|
                0 <= k < j ==> spec_path_set(extra@).contains((#[trigger] dst_paths@[k])@)
                    || spec_path_set(common@).contains(dst_paths@[k]@),
        decreases n_dst - j,
    {
        let p = dst_paths[j].clone();
        proof {
            assert(spec_path_set(dst_paths@).contains(dst_paths@[j as int]@));
        }
        if !contains_path(src_paths, p.as_str()) {
            proof {
                lemma_path_set_push(extra@, p);
            }
            extra.push(p);
        } else {
            // Already counted as common by the first pass.
            proof {
                let a = choose|a: int| 0 <= a < src_paths@.len() && p@ == src_paths@[a]@;
                assert(spec_path_set(missing@).contains(src_paths@[a]@) || spec_path_set(common@)
                    .contains(src_paths@[a]@));
                if spec_path_set(missing@).contains(p@) {
                    let b = choose|b: int| 0 <= b < missing@.len() && p@ == missing@[b]@;
                    assert(!spec_path_set(dst_paths@).contains(missing@[b]@));
                }
            }
        }
    }
    (missing, extra, common)
}

/// The verdict of a whole-tree comparison: it passes exactly when nothing
/// is missing, nothing is extra, and every common file compared equal.
pub fn compare_dirs_status(
    missing_count: usize,
    extra_count: usize,
    failed_count: usize,
) -> (s: Status)
    ensures
        s == Status::Passed <==> (missing_count == 0 && extra_count == 0 && failed_count == 0),
{
    if missing_count == 0 && extra_count == 0 && failed_count == 0 {
        Status::Passed
    } else {
        Status::Failed
    }
}

} // verus!
