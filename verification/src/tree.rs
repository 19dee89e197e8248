//! An in-memory model of a file tree, and the engines' effect on it.
//!
//! A tree is a finite set of files, each a path with its byte content, and a
//! finite set of directories. The copy engine's effect is to overlay the
//! destination with one write per job; the delete engine's effect is to
//! remove every planned path. The engines' laws — a completed copy mirrors
//! every selected file, copying twice equals copying once, a dry run changes
//! nothing, a complete delete leaves nothing — are stated and proved here
//! against these effects.

use vstd::prelude::*;
use crate::copy_plan::{
    FileJob,
    WalkEntry,
    spec_copy_jobs,
    spec_jobs_match,
    spec_entry_selected,
    lemma_jobs_shape,
    lemma_jobs_dests_distinct,
    lemma_selected_entry_has_job,
};
use crate::delete_plan::{DeleteJob, spec_delete_plan_ok, spec_planned_after};
use crate::paths::{str_eq, spec_join, spec_rel};

verus! {

/// One file of the model: a path and its content.
pub struct TreeFile {
    pub path: String,
    pub data: Vec<u8>,
}

/// A file tree: files with their contents, and directories.
pub struct Tree {
    files: Vec<TreeFile>,
    dirs: Vec<String>,
}

/// The map a file list denotes: each path to its content, later entries
/// winning.
pub open spec fn spec_files_map(s: Seq<TreeFile>) -> Map<Seq<char>, Seq<u8>>
    decreases s.len(),
{
    if s.len() == 0 {
        Map::empty()
    } else {
        spec_files_map(s.drop_last()).insert(s.last().path@, s.last().data@)
    }
}

/// The set of path views of a path list.
pub open spec fn spec_path_set(s: Seq<String>) -> Set<Seq<char>> {
    Set::new(|p: Seq<char>| exists|i: int| 0 <= i < s.len() && p == s[i]@)
}

/// Appending a path to a list adds exactly that path to its set.
pub proof fn lemma_path_set_push(v: Seq<String>, x: String)
    ensures
        spec_path_set(v.push(x)) == spec_path_set(v).insert(x@),
{
    let w = v.push(x);
    assert forall|p: Seq<char>| #[trigger] spec_path_set(w).contains(p) implies spec_path_set(
        v,
    ).insert(x@).contains(p) by {
        let a = choose|a: int| 0 <= a < w.len() && p == w[a]@;
        if a < v.len() {
            assert(v[a]@ == p);
        }
    }
    assert forall|p: Seq<char>| spec_path_set(v).insert(x@).contains(p) implies #[trigger] spec_path_set(
        w,
    ).contains(p) by {
        if p == x@ {
            assert(w[w.len() - 1]@ == p);
        } else {
            let a = choose|a: int| 0 <= a < v.len() && p == v[a]@;
            assert(w[a]@ == p);
        }
    }
    assert(spec_path_set(w) =~= spec_path_set(v).insert(x@));
}

/// No two entries of a file list share a path.
pub open spec fn spec_file_paths_unique(s: Seq<TreeFile>) -> bool {
    forall|i: int, j: int| 0 <= i < j < s.len() ==> (#[trigger] s[i]).path@ != (#[trigger] s[j]).path@
}

/// No two entries of a path list read the same.
pub open spec fn spec_paths_unique(s: Seq<String>) -> bool {
    forall|i: int, j: int| 0 <= i < j < s.len() ==> (#[trigger] s[i])@ != (#[trigger] s[j])@
}

/// What a unique file list's map holds: exactly the listed paths, each at
/// its listed content.
pub proof fn lemma_files_map_char(s: Seq<TreeFile>)
    requires
        spec_file_paths_unique(s),
    ensures
        forall|k: Seq<char>|
            #[trigger] spec_files_map(s).contains_key(k) <==> exists|i: int|
                0 <= i < s.len() && k == s[i].path@,
        forall|i: int|
            0 <= i < s.len() ==> spec_files_map(s)[(#[trigger] s[i]).path@] == s[i].data@,
    decreases s.len(),
{
    if s.len() > 0 {
        let t = s.drop_last();
        lemma_files_map_char(t);
        assert forall|k: Seq<char>| #[trigger] spec_files_map(s).contains_key(k) implies exists|
            i: int,
        | 0 <= i < s.len() && k == s[i].path@ by {
            if k == s.last().path@ {
                assert(0 <= s.len() - 1 < s.len() && k == s[s.len() - 1].path@);
            } else {
                assert(spec_files_map(t).contains_key(k));
                let i = choose|i: int| 0 <= i < t.len() && k == t[i].path@;
                assert(t[i] == s[i]);
                assert(0 <= i < s.len() && k == s[i].path@);
            }
        }
        assert forall|k: Seq<char>| (exists|i: int| 0 <= i < s.len() && k == s[i].path@) implies #[trigger] spec_files_map(
            s,
        ).contains_key(k) by {
            let i = choose|i: int| 0 <= i < s.len() && k == s[i].path@;
            if i < s.len() - 1 {
                assert(t[i].path@ == k);
            }
        }
        assert forall|i: int| 0 <= i < s.len() implies spec_files_map(s)[(#[trigger] s[i]).path@]
            == s[i].data@ by {
            if i < s.len() - 1 {
                assert(s[i].path@ != s.last().path@);
                assert(t[i] == s[i]);
            }
        }
    }
}

/// Removing one entry of a unique file list removes exactly its path from
/// the map.
pub proof fn lemma_files_map_remove(s: Seq<TreeFile>, i: int)
    requires
        spec_file_paths_unique(s),
        0 <= i < s.len(),
    ensures
        spec_file_paths_unique(s.remove(i)),
        spec_files_map(s.remove(i)) == spec_files_map(s).remove(s[i].path@),
{
    let r = s.remove(i);
    assert forall|a: int, b: int| 0 <= a < b < r.len() implies (#[trigger] r[a]).path@
        != (#[trigger] r[b]).path@ by {
        let a0 = if a < i {
            a
        } else {
            a + 1
        };
        let b0 = if b < i {
            b
        } else {
            b + 1
        };
        assert(r[a] == s[a0] && r[b] == s[b0]);
    }
    lemma_files_map_char(s);
    lemma_files_map_char(r);
    assert forall|k: Seq<char>|
        #[trigger] spec_files_map(r).contains_key(k) == spec_files_map(s).remove(
            s[i].path@,
        ).contains_key(k) by {
        if spec_files_map(r).contains_key(k) {
            let a = choose|a: int| 0 <= a < r.len() && k == r[a].path@;
            let a0 = if a < i {
                a
            } else {
                a + 1
            };
            assert(r[a] == s[a0]);
            assert(k != s[i].path@);
        }
        if spec_files_map(s).remove(s[i].path@).contains_key(k) {
            let a = choose|a: int| 0 <= a < s.len() && k == s[a].path@;
            let a1 = if a < i {
                a
            } else {
                a - 1
            };
            assert(a != i);
            assert(r[a1] == s[a]);
            assert(spec_files_map(r).contains_key(k));
        }
    }
    assert forall|k: Seq<char>| #[trigger] spec_files_map(r).contains_key(k) implies spec_files_map(
        r,
    )[k] == spec_files_map(s).remove(s[i].path@)[k] by {
        let a = choose|a: int| 0 <= a < r.len() && k == r[a].path@;
        let a0 = if a < i {
            a
        } else {
            a + 1
        };
        assert(r[a] == s[a0]);
        assert(spec_files_map(r)[r[a].path@] == r[a].data@);
        assert(spec_files_map(s)[s[a0].path@] == s[a0].data@);
        assert(k != s[i].path@);
    }
    assert(spec_files_map(r) =~= spec_files_map(s).remove(s[i].path@));
}

impl Tree {
    /// The files of the tree: each path to its byte content.
    pub closed spec fn files_map(&self) -> Map<Seq<char>, Seq<u8>> {
        spec_files_map(self.files@)
    }

    /// The directories of the tree.
    pub closed spec fn dirs_set(&self) -> Set<Seq<char>> {
        spec_path_set(self.dirs@)
    }

    /// Well-formed: no path is listed twice.
    pub closed spec fn wf(&self) -> bool {
        spec_file_paths_unique(self.files@) && spec_paths_unique(self.dirs@)
    }

    /// An empty tree.
    pub fn new() -> (t: Tree)
        ensures
            t.wf(),
            t.files_map() == Map::<Seq<char>, Seq<u8>>::empty(),
            t.dirs_set() == Set::<Seq<char>>::empty(),
    {
        let t = Tree { files: Vec::new(), dirs: Vec::new() };
        proof {
            assert(t.dirs_set() =~= Set::<Seq<char>>::empty());
        }
        t
    }

    /// Whether the tree holds nothing at all.
    pub fn is_empty(&self) -> (r: bool)
        requires
            self.wf(),
        ensures
            r <==> (self.files_map() == Map::<Seq<char>, Seq<u8>>::empty() && self.dirs_set()
                == Set::<Seq<char>>::empty()),
    {
        proof {
            lemma_files_map_char(self.files@);
            if self.files@.len() > 0 {
                assert(self.files_map().contains_key(self.files@[0].path@));
            } else {
                assert(self.files_map() =~= Map::<Seq<char>, Seq<u8>>::empty());
            }
            if self.dirs@.len() > 0 {
                assert(self.dirs_set().contains(self.dirs@[0]@));
            } else {
                assert(self.dirs_set() =~= Set::<Seq<char>>::empty());
            }
        }
        self.files.len() == 0 && self.dirs.len() == 0
    }

    /// The index of the file at `path`, if one is listed.
    fn find_file(&self, path: &str) -> (r: Option<usize>)
        ensures
            match r {
                Some(i) => i < self.files@.len() && self.files@[i as int].path@ == path@,
                None => forall|j: int|
                    0 <= j < self.files@.len() ==> (#[trigger] self.files@[j]).path@ != path@,
            },
    {
        let n = self.files.len();
        let mut i: usize = 0;
        while i < n
            invariant
                i <= n,
                n == self.files@.len(),
                forall|j: int| 0 <= j < i ==> (#[trigger] self.files@[j]).path@ != path@,
            decreases n - i,
        {
            if str_eq(self.files[i].path.as_str(), path) {
                return Some(i);
            }
            i = i + 1;
        }
        None
    }

    /// The index of the directory at `path`, if one is listed.
    fn find_dir(&self, path: &str) -> (r: Option<usize>)
        ensures
            match r {
                Some(i) => i < self.dirs@.len() && self.dirs@[i as int]@ == path@,
                None => forall|j: int| 0 <= j < self.dirs@.len() ==> (#[trigger] self.dirs@[j])@ != path@,
            },
    {
        let n = self.dirs.len();
        let mut i: usize = 0;
        while i < n
            invariant
                i <= n,
                n == self.dirs@.len(),
                forall|j: int| 0 <= j < i ==> (#[trigger] self.dirs@[j])@ != path@,
            decreases n - i,
        {
            if str_eq(self.dirs[i].as_str(), path) {
                return Some(i);
            }
            i = i + 1;
        }
        None
    }

    /// The content of the file at `path`, if the tree holds one.
    pub fn get_file(&self, path: &str) -> (r: Option<&Vec<u8>>)
        requires
            self.wf(),
        ensures
            match r {
                Some(d) => self.files_map().contains_key(path@) && self.files_map()[path@] == d@,
                None => !self.files_map().contains_key(path@),
            },
    {
        proof {
            lemma_files_map_char(self.files@);
        }
        match self.find_file(path) {
            Some(i) => Some(&self.files[i].data),
            None => None,
        }
    }

    /// Whether the tree holds a directory at `path`.
    pub fn has_dir(&self, path: &str) -> (r: bool)
        requires
            self.wf(),
        ensures
            r == self.dirs_set().contains(path@),
    {
        match self.find_dir(path) {
            Some(_) => true,
            None => false,
        }
    }

    /// Write a file: afterwards the tree holds `data` at `path`, and
    /// everything else is as it was.
    pub fn put_file(&mut self, path: String, data: Vec<u8>)
        requires
            old(self).wf(),
        ensures
            final(self).wf(),
            final(self).files_map() == old(self).files_map().insert(path@, data@),
            final(self).dirs_set() == old(self).dirs_set(),
    {
        let ghost before = self.files@;
        match self.find_file(path.as_str()) {
            Some(i) => {
                proof {
                    lemma_files_map_remove(self.files@, i as int);
                }
                let _ = self.files.remove(i);
                self.files.push(TreeFile { path, data });
                proof {
                    assert(self.files@.drop_last() =~= before.remove(i as int));
                    assert(spec_files_map(self.files@) =~= spec_files_map(before).insert(
                        path@,
                        data@,
                    ));
                    assert forall|a: int, b: int|
                        0 <= a < b < self.files@.len() implies (#[trigger] self.files@[a]).path@
                        != (#[trigger] self.files@[b]).path@ by {
                        if b == self.files@.len() - 1 {
                            assert(self.files@[a] == before.remove(i as int)[a]);
                        }
                    }
                }
            },
            None => {
                self.files.push(TreeFile { path, data });
                proof {
                    assert(self.files@.drop_last() =~= before);
                    assert forall|a: int, b: int|
                        0 <= a < b < self.files@.len() implies (#[trigger] self.files@[a]).path@
                        != (#[trigger] self.files@[b]).path@ by {
                        if b == self.files@.len() - 1 {
                            assert(self.files@[a] == before[a]);
                        }
                    }
                }
            },
        }
    }

    /// Record a directory: idempotent, everything else as it was.
    pub fn add_dir(&mut self, path: String)
        requires
            old(self).wf(),
        ensures
            final(self).wf(),
            final(self).files_map() == old(self).files_map(),
            final(self).dirs_set() == old(self).dirs_set().insert(path@),
    {
        let ghost before = self.dirs@;
        match self.find_dir(path.as_str()) {
            Some(_) => {
                proof {
                    assert(self.dirs_set().contains(path@));
                    assert(final(self).dirs_set() =~= old(self).dirs_set().insert(path@));
                }
            },
            None => {
                self.dirs.push(path);
                proof {
                    assert forall|a: int, b: int|
                        0 <= a < b < self.dirs@.len() implies (#[trigger] self.dirs@[a])@
                        != (#[trigger] self.dirs@[b])@ by {
                        if b == self.dirs@.len() - 1 {
                            assert(self.dirs@[a] == before[a]);
                        }
                    }
                    assert forall|p: Seq<char>| #[trigger] self.dirs_set().contains(p) implies old(
                        self,
                    ).dirs_set().insert(path@).contains(p) by {
                        let a = choose|a: int| 0 <= a < self.dirs@.len() && p == self.dirs@[a]@;
                        if a < self.dirs@.len() - 1 {
                            assert(before[a]@ == p);
                        }
                    }
                    assert forall|p: Seq<char>|
                        old(self).dirs_set().insert(path@).contains(p) implies #[trigger] self
                        .dirs_set().contains(p) by {
                        if p == path@ {
                            assert(self.dirs@[self.dirs@.len() - 1]@ == p);
                        } else {
                            let a = choose|a: int| 0 <= a < before.len() && p == before[a]@;
                            assert(self.dirs@[a]@ == p);
                        }
                    }
                    assert(self.dirs_set() =~= old(self).dirs_set().insert(path@));
                }
            },
        }
    }

    /// Delete whatever the tree holds at `path`, file or directory.
    pub fn remove_path(&mut self, path: &str)
        requires
            old(self).wf(),
        ensures
            final(self).wf(),
            final(self).files_map() == old(self).files_map().remove(path@),
            final(self).dirs_set() == old(self).dirs_set().remove(path@),
    {
        let ghost before_files = self.files@;
        let ghost before_dirs = self.dirs@;
        match self.find_file(path) {
            Some(i) => {
                proof {
                    lemma_files_map_remove(self.files@, i as int);
                }
                let _ = self.files.remove(i);
            },
            None => {
                proof {
                    lemma_files_map_char(before_files);
                    assert(!spec_files_map(before_files).contains_key(path@));
                    assert(spec_files_map(before_files) =~= spec_files_map(before_files).remove(
                        path@,
                    ));
                }
            },
        }
        match self.find_dir(path) {
            Some(i) => {
                let _ = self.dirs.remove(i);
                proof {
                    let r = self.dirs@;
                    assert forall|a: int, b: int| 0 <= a < b < r.len() implies (#[trigger] r[a])@
                        != (#[trigger] r[b])@ by {
                        let a0 = if a < i {
                            a
                        } else {
                            a + 1
                        };
                        let b0 = if b < i {
                            b
                        } else {
                            b + 1
                        };
                        assert(r[a] == before_dirs[a0] && r[b] == before_dirs[b0]);
                    }
                    assert forall|p: Seq<char>| #[trigger] spec_path_set(r).contains(p) implies
                        spec_path_set(before_dirs).remove(path@).contains(p) by {
                        let a = choose|a: int| 0 <= a < r.len() && p == r[a]@;
                        let a0 = if a < i {
                            a
                        } else {
                            a + 1
                        };
                        assert(r[a] == before_dirs[a0]);
                        assert(p != path@);
                    }
                    assert forall|p: Seq<char>|
                        spec_path_set(before_dirs).remove(path@).contains(p) implies #[trigger] spec_path_set(
                        r,
                    ).contains(p) by {
                        let a = choose|a: int| 0 <= a < before_dirs.len() && p == before_dirs[a]@;
                        assert(a != i);
                        let a1 = if a < i {
                            a
                        } else {
                            a - 1
                        };
                        assert(r[a1] == before_dirs[a]);
                    }
                    assert(spec_path_set(r) =~= spec_path_set(before_dirs).remove(path@));
                }
            },
            None => {
                proof {
                    assert(!spec_path_set(before_dirs).contains(path@)) by {
                        if spec_path_set(before_dirs).contains(path@) {
                            let a = choose|a: int|
                                0 <= a < before_dirs.len() && path@ == before_dirs[a]@;
                            assert(self.dirs@[a]@ != path@);
                        }
                    }
                    assert(spec_path_set(before_dirs) =~= spec_path_set(before_dirs).remove(
                        path@,
                    ));
                }
            },
        }
    }

    /// The paths of the tree's files, in listing order.
    pub fn file_paths(&self) -> (r: Vec<String>)
        requires
            self.wf(),
        ensures
            spec_paths_unique(r@),
            forall|k: Seq<char>|
                #[trigger] self.files_map().contains_key(k) ==> spec_path_set(r@).contains(k),
    {
        let mut r: Vec<String> = Vec::new();
        let n = self.files.len();
        for i in 0..n
            invariant
                n == self.files@.len(),
                r@.len() == i,
                spec_file_paths_unique(self.files@),
                forall|j: int| 0 <= j < i ==> (#[trigger] r@[j])@ == self.files@[j].path@,
        {
            r.push(self.files[i].path.clone());
        }
        proof {
            lemma_files_map_char(self.files@);
            assert forall|k: Seq<char>| #[trigger] self.files_map().contains_key(k) implies
                spec_path_set(r@).contains(k) by {
                let a = choose|a: int| 0 <= a < self.files@.len() && k == self.files@[a].path@;
                assert(r@[a]@ == k);
            }
        }
        r
    }

    /// The paths of the tree's directories, in listing order.
    pub fn dir_paths(&self) -> (r: Vec<String>)
        requires
            self.wf(),
        ensures
            spec_paths_unique(r@),
            forall|k: Seq<char>| #[trigger] self.dirs_set().contains(k) ==> spec_path_set(r@).contains(k),
    {
        let mut r: Vec<String> = Vec::new();
        let n = self.dirs.len();
        for i in 0..n
            invariant
                n == self.dirs@.len(),
                r@.len() == i,
                spec_paths_unique(self.dirs@),
                forall|j: int| 0 <= j < i ==> (#[trigger] r@[j])@ == self.dirs@[j]@,
        {
            r.push(self.dirs[i].clone());
        }
        proof {
            assert forall|k: Seq<char>| #[trigger] self.dirs_set().contains(k) implies spec_path_set(
                r@,
            ).contains(k) by {
                let a = choose|a: int| 0 <= a < self.dirs@.len() && k == self.dirs@[a]@;
                assert(r@[a]@ == k);
            }
        }
        r
    }
}

/// The overlay a job list writes onto the destination: one entry per job
/// whose source exists, the destination path mapped to the source's content,
/// later jobs winning.
pub open spec fn spec_writes(src: Map<Seq<char>, Seq<u8>>, jobs: Seq<FileJob>) -> Map<
    Seq<char>,
    Seq<u8>,
>
    decreases jobs.len(),
{
    if jobs.len() == 0 {
        Map::empty()
    } else {
        let rest = spec_writes(src, jobs.drop_last());
        let j = jobs.last();
        if src.contains_key(j.source_path@) {
            rest.insert(j.dest_path@, src[j.source_path@])
        } else {
            rest
        }
    }
}

/// How many jobs of the list name a source the source tree does not hold.
pub open spec fn spec_missing_count(src: Map<Seq<char>, Seq<u8>>, jobs: Seq<FileJob>) -> int
    decreases jobs.len(),
{
    if jobs.len() == 0 {
        0
    } else {
        spec_missing_count(src, jobs.drop_last()) + if src.contains_key(
            jobs.last().source_path@,
        ) {
            0int
        } else {
            1int
        }
    }
}

/// Run the copy engine's effect on the destination tree: each job in turn
/// writes its source's content at its destination path; a job whose source
/// is missing is counted as failed and the worker moves on. A dry run
/// changes nothing and fails nothing.
pub fn apply_copy(dest: &mut Tree, src: &Tree, jobs: &Vec<FileJob>, dry_run: bool) -> (failed:
    usize)
    requires
        old(dest).wf(),
        src.wf(),
    ensures
        final(dest).wf(),
        dry_run ==> *final(dest) == *old(dest) && failed == 0,
        !dry_run ==> final(dest).files_map() == old(dest).files_map().union_prefer_right(
            spec_writes(src.files_map(), jobs@),
        ) && failed == spec_missing_count(src.files_map(), jobs@),
        final(dest).dirs_set() == old(dest).dirs_set(),
{
    if dry_run {
        return 0;
    }
    let ghost src_map = src.files_map();
    let ghost dest0 = old(dest).files_map();
    let mut failed: usize = 0;
    let n = jobs.len();
    proof {
        assert(jobs@.take(0) =~= Seq::<FileJob>::empty());
        assert(dest0.union_prefer_right(spec_writes(src_map, jobs@.take(0))) =~= dest0);
    }
    for i in 0..n
        invariant
            n == jobs@.len(),
            dest.wf(),
            src.wf(),
            src_map == src.files_map(),
            failed <= i,
            dest.files_map() == dest0.union_prefer_right(spec_writes(src_map, jobs@.take(i as int))),
            failed == spec_missing_count(src_map, jobs@.take(i as int)),
            dest.dirs_set() == old(dest).dirs_set(),
        decreases n - i,
    {
        let ghost prefix = jobs@.take(i as int);
        let job = &jobs[i];
        match src.get_file(job.source_path.as_str()) {
            Some(data) => {
                let content = data.clone();
                dest.put_file(job.dest_path.clone(), content);
            },
            None => {
                failed = failed + 1;
            },
        }
        proof {
            assert(jobs@.take(i + 1).drop_last() =~= prefix);
            assert(jobs@.take(i + 1).last() == jobs@[i as int]);
            if src_map.contains_key(jobs@[i as int].source_path@) {
                assert(dest.files_map() =~= dest0.union_prefer_right(
                    spec_writes(src_map, jobs@.take(i + 1)),
                ));
            }
        }
    }
    proof {
        assert(jobs@.take(n as int) =~= jobs@);
    }
    failed
}

/// Copy completeness: when every job's source exists and no two jobs share
/// a destination, the written overlay holds each job's destination at
/// exactly its source's content.
proof fn lemma_writes_lookup(src: Map<Seq<char>, Seq<u8>>, jobs: Seq<FileJob>, i: int)
    requires
        0 <= i < jobs.len(),
        src.contains_key(jobs[i].source_path@),
        forall|a: int, b: int|
            0 <= a < b < jobs.len() ==> (#[trigger] jobs[a]).dest_path@ != (
            #[trigger] jobs[b]).dest_path@,
    ensures
        spec_writes(src, jobs).contains_key(jobs[i].dest_path@),
        spec_writes(src, jobs)[jobs[i].dest_path@] == src[jobs[i].source_path@],
    decreases jobs.len(),
{
    let t = jobs.drop_last();
    if i == jobs.len() - 1 {
    } else {
        assert(t[i] == jobs[i]);
        lemma_writes_lookup(src, t, i);
        assert(jobs[i].dest_path@ != jobs.last().dest_path@);
    }
}

/// Copy completeness: after a completed copy whose every source existed and
/// whose destinations were distinct, the destination holds, at every job's
/// destination path, exactly the source's content — whatever it held there
/// before.
pub proof fn lemma_copy_completeness(
    dest0: Map<Seq<char>, Seq<u8>>,
    src: Map<Seq<char>, Seq<u8>>,
    jobs: Seq<FileJob>,
    i: int,
)
    requires
        0 <= i < jobs.len(),
        src.contains_key(jobs[i].source_path@),
        forall|a: int, b: int|
            0 <= a < b < jobs.len() ==> (#[trigger] jobs[a]).dest_path@ != (
            #[trigger] jobs[b]).dest_path@,
    ensures
        dest0.union_prefer_right(spec_writes(src, jobs)).contains_key(jobs[i].dest_path@),
        dest0.union_prefer_right(spec_writes(src, jobs))[jobs[i].dest_path@] == src[jobs[i].source_path@],
{
    lemma_writes_lookup(src, jobs, i);
}

/// Copy idempotence: writing the same overlay a second time changes
/// nothing — the destination after two runs equals the destination after
/// one.
pub proof fn lemma_copy_idempotent(
    dest0: Map<Seq<char>, Seq<u8>>,
    src: Map<Seq<char>, Seq<u8>>,
    jobs: Seq<FileJob>,
)
    ensures
        dest0.union_prefer_right(spec_writes(src, jobs)).union_prefer_right(
            spec_writes(src, jobs),
        ) == dest0.union_prefer_right(spec_writes(src, jobs)),
{
    let w = spec_writes(src, jobs);
    assert(dest0.union_prefer_right(w).union_prefer_right(w) =~= dest0.union_prefer_right(w));
}

/// Copy completeness, end to end: run the jobs a duplicate-free walk
/// selects over a source that holds every selected file; afterwards the
/// destination holds, at every selected entry's mirrored path, exactly that
/// entry's content — whatever stood there before.
pub proof fn lemma_copy_run_completeness(
    dest0: Map<Seq<char>, Seq<u8>>,
    src: Map<Seq<char>, Seq<u8>>,
    jobs: Seq<FileJob>,
    entries: Seq<WalkEntry>,
    source_root: Seq<char>,
    dest_root: Seq<char>,
    inclusion: Option<Seq<char>>,
    exclusion: Option<Seq<char>>,
    k: int,
)
    requires
        spec_jobs_match(
            jobs,
            spec_copy_jobs(entries, source_root, dest_root, inclusion, exclusion),
        ),
        forall|a: int, b: int|
            0 <= a < b < entries.len() ==> (#[trigger] entries[a]).path@ != (
            #[trigger] entries[b]).path@,
        forall|j: int|
            0 <= j < entries.len() && spec_entry_selected(
                #[trigger] entries[j],
                source_root,
                inclusion,
                exclusion,
            ) ==> src.contains_key(entries[j].path@),
        0 <= k < entries.len(),
        spec_entry_selected(entries[k], source_root, inclusion, exclusion),
    ensures
        ({
            let result = dest0.union_prefer_right(spec_writes(src, jobs));
            let mirror = spec_join(dest_root, spec_rel(entries[k].path@, source_root));
            result.contains_key(mirror) && result[mirror] == src[entries[k].path@]
        }),
{
    let ghosts = spec_copy_jobs(entries, source_root, dest_root, inclusion, exclusion);
    lemma_jobs_shape(entries, source_root, dest_root, inclusion, exclusion);
    lemma_jobs_dests_distinct(entries, source_root, dest_root, inclusion, exclusion);
    lemma_selected_entry_has_job(entries, source_root, dest_root, inclusion, exclusion, k);
    let i = choose|i: int| 0 <= i < ghosts.len() && (#[trigger] ghosts[i]).src == entries[k].path@;
    assert(jobs[i].source_path@ == entries[k].path@);
    assert(jobs[i].dest_path@ == spec_join(dest_root, spec_rel(entries[k].path@, source_root)));
    assert forall|a: int, b: int| 0 <= a < b < jobs.len() implies (#[trigger] jobs[a]).dest_path@
        != (#[trigger] jobs[b]).dest_path@ by {
        assert(ghosts[a].dst != ghosts[b].dst);
    }
    assert(src.contains_key(jobs[i].source_path@)) by {
        let e = choose|e: int|
            0 <= e < entries.len() && (#[trigger] entries[e]).path@ == ghosts[i].src
                && spec_entry_selected(entries[e], source_root, inclusion, exclusion);
        assert(src.contains_key(entries[e].path@));
    }
    lemma_copy_completeness(dest0, src, jobs, i);
}

/// The set of paths a delete plan names.
pub open spec fn spec_plan_path_set(plan: Seq<DeleteJob>) -> Set<Seq<char>> {
    Set::new(|p: Seq<char>| exists|i: int| 0 <= i < plan.len() && p == plan[i].path@)
}

/// Run the delete engine's effect on the tree: each planned path is removed
/// in plan order. A dry run changes nothing.
pub fn apply_delete(tree: &mut Tree, plan: &Vec<DeleteJob>, dry_run: bool)
    requires
        old(tree).wf(),
    ensures
        final(tree).wf(),
        dry_run ==> *final(tree) == *old(tree),
        !dry_run ==> final(tree).files_map() == old(tree).files_map().remove_keys(
            spec_plan_path_set(plan@),
        ) && final(tree).dirs_set() == old(tree).dirs_set().difference(spec_plan_path_set(plan@)),
{
    if dry_run {
        return ;
    }
    let ghost files0 = old(tree).files_map();
    let ghost dirs0 = old(tree).dirs_set();
    let n = plan.len();
    proof {
        assert(files0.remove_keys(spec_plan_path_set(plan@.take(0))) =~= files0);
        assert(dirs0.difference(spec_plan_path_set(plan@.take(0))) =~= dirs0);
    }
    for i in 0..n
        invariant
            n == plan@.len(),
            tree.wf(),
            tree.files_map() == files0.remove_keys(spec_plan_path_set(plan@.take(i as int))),
            tree.dirs_set() == dirs0.difference(spec_plan_path_set(plan@.take(i as int))),
        decreases n - i,
    {
        let ghost prefix = plan@.take(i as int);
        tree.remove_path(plan[i].path.as_str());
        proof {
            let s0 = spec_plan_path_set(prefix);
            let s1 = spec_plan_path_set(plan@.take(i + 1));
            assert forall|p: Seq<char>| #[trigger] s1.contains(p) implies s0.insert(
                plan@[i as int].path@,
            ).contains(p) by {
                let a = choose|a: int|
                    0 <= a < plan@.take(i + 1).len() && p == (#[trigger] plan@.take(
                        i + 1,
                    )[a]).path@;
                if a < i {
                    assert(prefix[a].path@ == p);
                }
            }
            assert forall|p: Seq<char>|
                s0.insert(plan@[i as int].path@).contains(p) implies #[trigger] s1.contains(p) by {
                if p == plan@[i as int].path@ {
                    assert(plan@.take(i + 1)[i as int].path@ == p);
                } else {
                    let a = choose|a: int| 0 <= a < prefix.len() && p == prefix[a].path@;
                    assert(plan@.take(i + 1)[a].path@ == p);
                }
            }
            assert(s1 =~= s0.insert(plan@[i as int].path@));
            assert(tree.files_map() =~= files0.remove_keys(s1));
            assert(tree.dirs_set() =~= dirs0.difference(s1));
        }
    }
    proof {
        assert(plan@.take(n as int) =~= plan@);
    }
}

/// Delete completeness: a plan that names every path of the tree leaves the
/// tree with no residual entry at all.
pub proof fn lemma_delete_leaves_nothing(
    files: Map<Seq<char>, Seq<u8>>,
    dirs: Set<Seq<char>>,
    plan: Seq<DeleteJob>,
)
    requires
        forall|k: Seq<char>|
            #[trigger] files.contains_key(k) ==> spec_plan_path_set(plan).contains(k),
        forall|p: Seq<char>| #[trigger] dirs.contains(p) ==> spec_plan_path_set(plan).contains(p),
    ensures
        files.remove_keys(spec_plan_path_set(plan)) == Map::<Seq<char>, Seq<u8>>::empty(),
        dirs.difference(spec_plan_path_set(plan)) == Set::<Seq<char>>::empty(),
{
    assert(files.remove_keys(spec_plan_path_set(plan)) =~= Map::<Seq<char>, Seq<u8>>::empty());
    assert(dirs.difference(spec_plan_path_set(plan)) =~= Set::<Seq<char>>::empty());
}

/// Delete completeness, end to end: a plan built by the delete planner from
/// the tree's own listing, once applied, leaves neither a file nor a
/// directory behind.
pub proof fn lemma_full_delete_empties(
    files: Map<Seq<char>, Seq<u8>>,
    dirs: Set<Seq<char>>,
    file_paths: Seq<String>,
    dir_paths: Seq<String>,
    plan: Seq<DeleteJob>,
)
    requires
        spec_delete_plan_ok(plan, file_paths, dir_paths),
        forall|k: Seq<char>|
            #[trigger] files.contains_key(k) ==> spec_path_set(file_paths).contains(k),
        forall|p: Seq<char>| #[trigger] dirs.contains(p) ==> spec_path_set(dir_paths).contains(p),
    ensures
        files.remove_keys(spec_plan_path_set(plan)) == Map::<Seq<char>, Seq<u8>>::empty(),
        dirs.difference(spec_plan_path_set(plan)) == Set::<Seq<char>>::empty(),
{
    lemma_plan_covers_listing(plan, file_paths, dir_paths);
    lemma_delete_leaves_nothing(files, dirs, plan);
}

/// A delete plan built from the tree's own listing names every listed path:
/// every file path stands in the plan's head and every directory in its
/// depth-ordered tail.
pub proof fn lemma_plan_covers_listing(
    plan: Seq<DeleteJob>,
    files: Seq<String>,
    dirs: Seq<String>,
)
    requires
        spec_delete_plan_ok(plan, files, dirs),
    ensures
        forall|k: Seq<char>|
            #[trigger] spec_path_set(files).contains(k) ==> spec_plan_path_set(plan).contains(k),
        forall|k: Seq<char>|
            #[trigger] spec_path_set(dirs).contains(k) ==> spec_plan_path_set(plan).contains(k),
{
    assert forall|k: Seq<char>| #[trigger] spec_path_set(files).contains(k) implies
        spec_plan_path_set(plan).contains(k) by {
        let a = choose|a: int| 0 <= a < files.len() && k == files[a]@;
        assert(plan[a].path@ == k);
    }
    assert forall|k: Seq<char>| #[trigger] spec_path_set(dirs).contains(k) implies
        spec_plan_path_set(plan).contains(k) by {
        let a = choose|a: int| 0 <= a < dirs.len() && k == dirs[a]@;
        assert(spec_planned_after(dirs[a]@, plan, files.len() as int));
        let b = choose|b: int| files.len() <= b < plan.len() && dirs[a]@ == plan[b].path@;
        assert(plan[b].path@ == k);
    }
}

} // verus!
