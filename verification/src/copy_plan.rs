//! Job selection of the parallel copy engine, and the tiered fast-copy
//! fallback chain.
//!
//! One traversal walks the source tree, filters each candidate path, and
//! turns every selected file into a job carrying its absolute source path,
//! its mirrored destination path and its size. Workers then copy each job
//! with the fastest mechanism available, falling through a fixed chain of
//! tiers until one succeeds; the final, buffered-streaming tier works on any
//! pair of byte streams.

use vstd::prelude::*;
use crate::filter::{CompiledPattern, spec_selected, spec_opt_pattern, selected};
use crate::paths::{spec_is_under, spec_rel, spec_join, strip_prefix, join_path};

verus! {

/// A file's modification time: seconds and nanoseconds.
#[derive(Clone, Copy, Debug, PartialEq, Eq, Structural)]
pub struct Timestamp {
    pub secs: i64,
    pub nanos: i64,
}

/// One unit of copy work, created by the traversal and consumed by exactly
/// one worker.
pub struct FileJob {
    pub source_path: String,
    pub dest_path: String,
    pub size: u64,
    pub source_modified: Option<Timestamp>,
}

/// The options of one copy invocation.
pub struct CopyOptions<'a> {
    pub threads: usize,
    pub inclusion: Option<&'a CompiledPattern>,
    pub exclusion: Option<&'a CompiledPattern>,
    pub dry_run: bool,
    pub no_progress: bool,
}

/// One entry reported by the source-tree walk.
pub struct WalkEntry {
    pub path: String,
    pub size: u64,
    pub is_file: bool,
    pub modified: Option<Timestamp>,
}

/// What one selected job looks like, at the level of path characters.
pub struct GhostJob {
    pub src: Seq<char>,
    pub dst: Seq<char>,
    pub size: u64,
}

/// Whether a walked entry becomes a job: it must be a regular file, lie
/// under the source root, and pass the filters.
pub open spec fn spec_entry_selected(
    e: WalkEntry,
    source_root: Seq<char>,
    inclusion: Option<Seq<char>>,
    exclusion: Option<Seq<char>>,
) -> bool {
    e.is_file && spec_is_under(e.path@, source_root) && spec_selected(e.path@, inclusion, exclusion)
}

/// The job a selected entry becomes: the entry's own path as source, the
/// destination root joined with the relative remainder as destination.
pub open spec fn spec_job_of(e: WalkEntry, source_root: Seq<char>, dest_root: Seq<char>) -> GhostJob {
    GhostJob {
        src: e.path@,
        dst: spec_join(dest_root, spec_rel(e.path@, source_root)),
        size: e.size,
    }
}

/// The jobs of a walk, in traversal order: exactly one per selected entry.
pub open spec fn spec_copy_jobs(
    entries: Seq<WalkEntry>,
    source_root: Seq<char>,
    dest_root: Seq<char>,
    inclusion: Option<Seq<char>>,
    exclusion: Option<Seq<char>>,
) -> Seq<GhostJob>
    decreases entries.len(),
{
    if entries.len() == 0 {
        Seq::empty()
    } else {
        spec_copy_jobs(entries.drop_last(), source_root, dest_root, inclusion, exclusion) + if
            spec_entry_selected(entries.last(), source_root, inclusion, exclusion) {
            seq![spec_job_of(entries.last(), source_root, dest_root)]
        } else {
            Seq::empty()
        }
    }
}

/// Whether a job list matches a ghost job list element for element.
pub open spec fn spec_jobs_match(jobs: Seq<FileJob>, ghosts: Seq<GhostJob>) -> bool {
    &&& jobs.len() == ghosts.len()
    &&& forall|i: int|
        0 <= i < jobs.len() ==> {
            &&& (#[trigger] jobs[i]).source_path@ == ghosts[i].src
            &&& jobs[i].dest_path@ == ghosts[i].dst
            &&& jobs[i].size == ghosts[i].size
        }
}

/// Select the copy jobs of one walk: one job per regular file that lies
/// under the source root and passes the filters, in traversal order, with
/// the destination path mirrored under the destination root.
pub fn select_jobs(
    entries: &Vec<WalkEntry>,
    source_root: &str,
    dest_root: &str,
    inclusion: Option<&CompiledPattern>,
    exclusion: Option<&CompiledPattern>,
) -> (jobs: Vec<FileJob>)
    ensures
        spec_jobs_match(
            jobs@,
            spec_copy_jobs(
                entries@,
                source_root@,
                dest_root@,
                spec_opt_pattern(inclusion),
                spec_opt_pattern(exclusion),
            ),
        ),
{
    let ghost inc = spec_opt_pattern(inclusion);
    let ghost exc = spec_opt_pattern(exclusion);
    let mut jobs: Vec<FileJob> = Vec::new();
    let n = entries.len();
    proof {
        assert(entries@.take(0) =~= Seq::<WalkEntry>::empty());
    }
    for i in 0..n
        invariant
            n == entries@.len(),
            inc == spec_opt_pattern(inclusion),
            exc == spec_opt_pattern(exclusion),
            spec_jobs_match(
                jobs@,
                spec_copy_jobs(entries@.take(i as int), source_root@, dest_root@, inc, exc),
            ),
        decreases n - i,
    {
        let ghost prefix = entries@.take(i as int);
        let e = &entries[i];
        if e.is_file && selected(e.path.as_str(), inclusion, exclusion) {
            match strip_prefix(e.path.as_str(), source_root) {
                Some(rel) => {
                    let dst = join_path(dest_root, rel.as_str());
                    jobs.push(
                        FileJob {
                            source_path: e.path.clone(),
                            dest_path: dst,
                            size: e.size,
                            source_modified: e.modified,
                        },
                    );
                },
                None => {},
            }
        }
        proof {
            assert(entries@.take(i + 1).drop_last() =~= prefix);
            assert(entries@.take(i + 1).last() == entries@[i as int]);
            let pj = spec_copy_jobs(prefix, source_root@, dest_root@, inc, exc);
            let nj = spec_copy_jobs(entries@.take(i + 1), source_root@, dest_root@, inc, exc);
            if spec_entry_selected(entries@[i as int], source_root@, inc, exc) {
                assert(nj =~= pj.push(spec_job_of(entries@[i as int], source_root@, dest_root@)));
            } else {
                assert(nj =~= pj);
            }
            assert(spec_jobs_match(jobs@, nj));
        }
    }
    proof {
        assert(entries@.take(n as int) =~= entries@);
    }
    jobs
}

/// Whether some selected entry of the walk has the path `p`.
pub open spec fn spec_some_selected_entry_at(
    p: Seq<char>,
    entries: Seq<WalkEntry>,
    source_root: Seq<char>,
    inclusion: Option<Seq<char>>,
    exclusion: Option<Seq<char>>,
) -> bool {
    exists|k: int|
        0 <= k < entries.len() && (#[trigger] entries[k]).path@ == p && spec_entry_selected(
            entries[k],
            source_root,
            inclusion,
            exclusion,
        )
}

/// What every job of a walk looks like: it lies under the source root, its
/// destination is the mirror of its source, and its source is the path of
/// one of the walk's selected entries.
pub proof fn lemma_jobs_shape(
    entries: Seq<WalkEntry>,
    source_root: Seq<char>,
    dest_root: Seq<char>,
    inclusion: Option<Seq<char>>,
    exclusion: Option<Seq<char>>,
)
    ensures
        ({
            let jobs = spec_copy_jobs(entries, source_root, dest_root, inclusion, exclusion);
            forall|i: int|
                0 <= i < jobs.len() ==> {
                    &&& spec_is_under((#[trigger] jobs[i]).src, source_root)
                    &&& jobs[i].dst == spec_join(dest_root, spec_rel(jobs[i].src, source_root))
                    &&& spec_some_selected_entry_at(
                        jobs[i].src,
                        entries,
                        source_root,
                        inclusion,
                        exclusion,
                    )
                }
        }),
    decreases entries.len(),
{
    if entries.len() > 0 {
        let t = entries.drop_last();
        lemma_jobs_shape(t, source_root, dest_root, inclusion, exclusion);
        let jt = spec_copy_jobs(t, source_root, dest_root, inclusion, exclusion);
        let jobs = spec_copy_jobs(entries, source_root, dest_root, inclusion, exclusion);
        assert forall|i: int| 0 <= i < jobs.len() implies {
            &&& spec_is_under((#[trigger] jobs[i]).src, source_root)
            &&& jobs[i].dst == spec_join(dest_root, spec_rel(jobs[i].src, source_root))
            &&& spec_some_selected_entry_at(
                jobs[i].src,
                entries,
                source_root,
                inclusion,
                exclusion,
            )
        } by {
            if i < jt.len() {
                assert(jobs[i] == jt[i]);
                let k = choose|k: int|
                    0 <= k < t.len() && (#[trigger] t[k]).path@ == jt[i].src
                        && spec_entry_selected(t[k], source_root, inclusion, exclusion);
                assert(entries[k] == t[k]);
                assert((#[trigger] entries[k]).path@ == jobs[i].src && spec_entry_selected(
                    entries[k],
                    source_root,
                    inclusion,
                    exclusion,
                ));
            } else {
                assert(jobs[i] == spec_job_of(entries.last(), source_root, dest_root));
                assert((#[trigger] entries[entries.len() - 1]).path@ == jobs[i].src
                    && spec_entry_selected(
                    entries[entries.len() - 1],
                    source_root,
                    inclusion,
                    exclusion,
                ));
            }
        }
    }
}

/// Every selected entry of the walk gets a job: its path appears as some
/// job's source.
pub proof fn lemma_selected_entry_has_job(
    entries: Seq<WalkEntry>,
    source_root: Seq<char>,
    dest_root: Seq<char>,
    inclusion: Option<Seq<char>>,
    exclusion: Option<Seq<char>>,
    k: int,
)
    requires
        0 <= k < entries.len(),
        spec_entry_selected(entries[k], source_root, inclusion, exclusion),
    ensures
        ({
            let jobs = spec_copy_jobs(entries, source_root, dest_root, inclusion, exclusion);
            exists|i: int| 0 <= i < jobs.len() && (#[trigger] jobs[i]).src == entries[k].path@
        }),
    decreases entries.len(),
{
    let t = entries.drop_last();
    let jt = spec_copy_jobs(t, source_root, dest_root, inclusion, exclusion);
    let jobs = spec_copy_jobs(entries, source_root, dest_root, inclusion, exclusion);
    if k == entries.len() - 1 {
        assert(jobs[jobs.len() - 1].src == entries[k].path@);
    } else {
        assert(t[k] == entries[k]);
        lemma_selected_entry_has_job(t, source_root, dest_root, inclusion, exclusion, k);
        let i = choose|i: int| 0 <= i < jt.len() && (#[trigger] jt[i]).src == t[k].path@;
        assert(jobs[i] == jt[i]);
        assert((#[trigger] jobs[i]).src == entries[k].path@);
    }
}

/// A duplicate-free walk yields jobs with pairwise distinct destinations:
/// the mirrored path determines the source path, and no two entries share
/// one. Together with copy completeness this pins the whole run: every
/// selected file ends up mirrored with exactly its content.
pub proof fn lemma_jobs_dests_distinct(
    entries: Seq<WalkEntry>,
    source_root: Seq<char>,
    dest_root: Seq<char>,
    inclusion: Option<Seq<char>>,
    exclusion: Option<Seq<char>>,
)
    requires
        forall|a: int, b: int|
            0 <= a < b < entries.len() ==> (#[trigger] entries[a]).path@ != (
            #[trigger] entries[b]).path@,
    ensures
        ({
            let jobs = spec_copy_jobs(entries, source_root, dest_root, inclusion, exclusion);
            forall|i: int, j: int|
                0 <= i < j < jobs.len() ==> (#[trigger] jobs[i]).dst != (#[trigger] jobs[j]).dst
        }),
    decreases entries.len(),
{
    if entries.len() > 0 {
        let t = entries.drop_last();
        assert forall|a: int, b: int| 0 <= a < b < t.len() implies (#[trigger] t[a]).path@ != (
        #[trigger] t[b]).path@ by {
            assert(t[a] == entries[a] && t[b] == entries[b]);
        }
        lemma_jobs_dests_distinct(t, source_root, dest_root, inclusion, exclusion);
        lemma_jobs_shape(t, source_root, dest_root, inclusion, exclusion);
        let jt = spec_copy_jobs(t, source_root, dest_root, inclusion, exclusion);
        let jobs = spec_copy_jobs(entries, source_root, dest_root, inclusion, exclusion);
        assert forall|i: int, j: int| 0 <= i < j < jobs.len() implies (#[trigger] jobs[i]).dst != (
        #[trigger] jobs[j]).dst by {
            if j < jt.len() {
                assert(jobs[i] == jt[i] && jobs[j] == jt[j]);
            } else if j == jt.len() && jobs.len() == jt.len() + 1 {
                let last = entries.last();
                assert(jobs[j] == spec_job_of(last, source_root, dest_root));
                assert(jobs[i] == jt[i]);
                if jobs[i].dst == jobs[j].dst {
                    crate::paths::lemma_join_injective(
                        dest_root,
                        spec_rel(jt[i].src, source_root),
                        spec_rel(last.path@, source_root),
                    );
                    crate::paths::lemma_rel_injective(jt[i].src, last.path@, source_root);
                    let k = choose|k: int|
                        0 <= k < t.len() && (#[trigger] t[k]).path@ == jt[i].src
                            && spec_entry_selected(t[k], source_root, inclusion, exclusion);
                    assert(entries[k] == t[k]);
                    assert(entries[k].path@ == entries[entries.len() - 1].path@);
                }
            }
        }
    }
}

/// The tiers of the fast-copy primitive, fastest first: a copy-on-write
/// clone, a kernel-mediated ranged copy, a zero-copy send-style transfer, a
/// whole-file platform copy, and last a manual buffered streaming copy.
#[derive(Clone, Copy, Debug, PartialEq, Eq, Structural)]
pub enum CopyTier {
    Reflink,
    KernelRange,
    SendStyle,
    WholeFile,
    Streaming,
}

/// The tier tried after `t` fails, and nothing after the final streaming
/// tier.
pub open spec fn spec_next_tier(t: CopyTier) -> Option<CopyTier> {
    match t {
        CopyTier::Reflink => Some(CopyTier::KernelRange),
        CopyTier::KernelRange => Some(CopyTier::SendStyle),
        CopyTier::SendStyle => Some(CopyTier::WholeFile),
        CopyTier::WholeFile => Some(CopyTier::Streaming),
        CopyTier::Streaming => None,
    }
}

/// Decide the next tier after a failed one. An intermediate tier's failure
/// is never reported; it only moves the chain forward.
pub fn next_copy_tier(t: CopyTier) -> (r: Option<CopyTier>)
    ensures
        r == spec_next_tier(t),
{
    match t {
        CopyTier::Reflink => Some(CopyTier::KernelRange),
        CopyTier::KernelRange => Some(CopyTier::SendStyle),
        CopyTier::SendStyle => Some(CopyTier::WholeFile),
        CopyTier::WholeFile => Some(CopyTier::Streaming),
        CopyTier::Streaming => None,
    }
}

/// How many tiers remain at and after `t`.
pub open spec fn spec_tiers_left(t: CopyTier) -> nat {
    match t {
        CopyTier::Reflink => 5,
        CopyTier::KernelRange => 4,
        CopyTier::SendStyle => 3,
        CopyTier::WholeFile => 2,
        CopyTier::Streaming => 1,
    }
}

/// The fallback chain always terminates at the streaming tier: stepping
/// from any tier strictly shrinks what is left, and only the streaming tier
/// has no successor.
pub proof fn lemma_fallback_chain_terminates(t: CopyTier)
    ensures
        match spec_next_tier(t) {
            Some(n) => spec_tiers_left(n) < spec_tiers_left(t),
            None => t == CopyTier::Streaming,
        },
{
}

/// The last-resort streaming copy: move the source bytes through a bounded
/// reusable buffer. Whatever happened to the faster tiers, this produces a
/// byte-identical destination.
pub fn stream_copy(src: &Vec<u8>, buf_len: usize) -> (out: Vec<u8>)
    requires
        buf_len >= 1,
    ensures
        out@ == src@,
{
    let mut out: Vec<u8> = Vec::new();
    let n = src.len();
    let mut offset: usize = 0;
    proof {
        assert(src@.take(0) =~= Seq::<u8>::empty());
    }
    while offset < n
        invariant
            offset <= n,
            n == src@.len(),
            buf_len >= 1,
            out@ == src@.take(offset as int),
        decreases n - offset,
    {
        // One bounded read: at most `buf_len` bytes from the current offset.
        let end = if n - offset < buf_len {
            n
        } else {
            offset + buf_len
        };
        let mut i: usize = offset;
        while i < end
            invariant
                offset <= i <= end <= n,
                n == src@.len(),
                out@ == src@.take(i as int),
            decreases end - i,
        {
            out.push(src[i]);
            proof {
                assert(src@.take(i + 1) =~= src@.take(i as int).push(src@[i as int]));
            }
            i = i + 1;
        }
        offset = end;
    }
    proof {
        assert(src@.take(n as int) =~= src@);
    }
    out
}

} // verus!
