//! Ordering of parallel delete work.
//!
//! The traversal separates files from directories. Every file is enqueued
//! before any directory, and directories are enqueued in order of
//! non-increasing depth, deepest first. Workers dequeue in FIFO order, so a
//! directory is never attempted before everything under it: anything under a
//! directory is either a file (enqueued earlier) or a strictly deeper
//! directory (also enqueued earlier).

use vstd::prelude::*;
use crate::paths::{spec_depth, spec_is_under, lemma_under_is_deeper, path_depth};

verus! {

/// One unit of delete work: a path, and whether it names a directory.
pub struct DeleteJob {
    pub path: String,
    pub is_directory: bool,
}

/// A directory queued for deletion, with its depth computed once.
struct DirItem {
    path: String,
    depth: usize,
}

/// Every queued directory carries its own depth.
spec fn dir_items_wf(items: Seq<DirItem>) -> bool {
    forall|i: int| 0 <= i < items.len() ==> (#[trigger] items[i]).depth == spec_depth(items[i].path@)
}

/// Selection sort, deepest first: repeatedly move a deepest remaining
/// directory to the result. The result is a rearrangement of the input.
fn sort_dirs_deepest_first(items: Vec<DirItem>) -> (sorted: Vec<DirItem>)
    requires
        dir_items_wf(items@),
    ensures
        dir_items_wf(sorted@),
        sorted@.len() == items@.len(),
        sorted@.to_multiset() == items@.to_multiset(),
        forall|i: int, j: int|
            0 <= i <= j < sorted@.len() ==> (#[trigger] sorted@[i]).depth
                >= (#[trigger] sorted@[j]).depth,
{
    broadcast use vstd::multiset::group_multiset_axioms;

    let ghost items_start = items@;
    let mut rest = items;
    let mut sorted: Vec<DirItem> = Vec::new();
    proof {
        sorted@.to_multiset_ensures();
        vstd::multiset::lemma_multiset_empty_len::<DirItem>(sorted@.to_multiset());
        assert(sorted@.to_multiset().add(rest@.to_multiset()) =~= items_start.to_multiset());
    }
    while rest.len() > 0
        invariant
            dir_items_wf(rest@),
            dir_items_wf(sorted@),
            sorted@.to_multiset().add(rest@.to_multiset()) =~= items_start.to_multiset(),
            sorted@.len() + rest@.len() == items_start.len(),
            forall|i: int, j: int|
                0 <= i <= j < sorted@.len() ==> (#[trigger] sorted@[i]).depth
                    >= (#[trigger] sorted@[j]).depth,
            forall|i: int, j: int|
                0 <= i < sorted@.len() && 0 <= j < rest@.len() ==> (#[trigger] sorted@[i]).depth
                    >= (#[trigger] rest@[j]).depth,
        decreases rest.len(),
    {
        let mut m: usize = 0;
        let mut i: usize = 1;
        while i < rest.len()
            invariant
                m < i <= rest@.len(),
                rest@.len() > 0,
                forall|k: int| 0 <= k < i ==> (#[trigger] rest@[k]).depth <= rest@[m as int].depth,
            decreases rest@.len() - i,
        {
            if rest[i].depth > rest[m].depth {
                m = i;
            }
            i = i + 1;
        }
        let ghost rest_before = rest@;
        let ghost sorted_before = sorted@;
        let item = rest.remove(m);
        sorted.push(item);
        proof {
            let x = rest_before[m as int];
            sorted_before.to_multiset_ensures();
            rest_before.to_multiset_ensures();
            assert(rest_before.contains(x));
            assert(sorted@ == sorted_before.push(x));
            assert(sorted_before.push(x).to_multiset() =~= sorted_before.to_multiset().insert(x));
            assert(rest@ == rest_before.remove(m as int));
            assert(rest_before.remove(m as int).to_multiset() =~= rest_before.to_multiset().remove(
                x,
            ));
            assert(sorted@.to_multiset().add(rest@.to_multiset()) =~= sorted_before.to_multiset()
                .add(rest_before.to_multiset()));
        }
    }
    proof {
        rest@.to_multiset_ensures();
        vstd::multiset::lemma_multiset_empty_len::<DirItem>(rest@.to_multiset());
        sorted@.to_multiset_ensures();
        items_start.to_multiset_ensures();
        assert(sorted@.to_multiset() =~= items_start.to_multiset());
    }
    sorted
}

/// Whether some path of `paths` reads `p`.
pub open spec fn spec_names_one_of(p: Seq<char>, paths: Seq<String>) -> bool {
    exists|k: int| 0 <= k < paths.len() && p == paths[k]@
}

/// Whether some job in `plan[from..]` names the path `p`.
pub open spec fn spec_planned_after(p: Seq<char>, plan: Seq<DeleteJob>, from: int) -> bool {
    exists|i: int| from <= i < plan.len() && p == plan[i].path@
}

/// What a correct delete plan looks like: the files first, in traversal
/// order; then every directory, by non-increasing depth; and the plan's
/// directories are exactly the traversal's.
pub open spec fn spec_delete_plan_ok(
    plan: Seq<DeleteJob>,
    files: Seq<String>,
    dirs: Seq<String>,
) -> bool {
    &&& plan.len() == files.len() + dirs.len()
    &&& forall|i: int|
        0 <= i < files.len() ==> (#[trigger] plan[i]).path@ == files[i]@ && !plan[i].is_directory
    &&& forall|i: int| files.len() <= i < plan.len() ==> (#[trigger] plan[i]).is_directory
    &&& forall|i: int, j: int|
        files.len() <= i <= j < plan.len() ==> spec_depth(#[trigger] plan[i].path@) >= spec_depth(
            #[trigger] plan[j].path@,
        )
    &&& forall|i: int|
        files.len() <= i < plan.len() ==> spec_names_one_of((#[trigger] plan[i]).path@, dirs)
    &&& forall|k: int|
        0 <= k < dirs.len() ==> spec_planned_after((#[trigger] dirs[k])@, plan, files.len() as int)
}

/// The directories of the plan are exactly the traversal's: rearranging the
/// depth-annotated items moves every input directory into the plan's tail
/// and nothing else.
proof fn lemma_dirs_coverage(
    plan: Seq<DeleteJob>,
    sorted: Seq<DirItem>,
    items: Seq<DirItem>,
    dirs: Seq<String>,
    n: int,
)
    requires
        0 <= n,
        sorted.to_multiset() == items.to_multiset(),
        items.len() == dirs.len(),
        forall|i: int| 0 <= i < items.len() ==> (#[trigger] items[i]).path@ == dirs[i]@,
        plan.len() == n + sorted.len(),
        forall|i: int| n <= i < plan.len() ==> (#[trigger] plan[i]).path@ == sorted[i - n].path@,
    ensures
        forall|i: int| n <= i < plan.len() ==> spec_names_one_of((#[trigger] plan[i]).path@, dirs),
        forall|k: int| 0 <= k < dirs.len() ==> spec_planned_after((#[trigger] dirs[k])@, plan, n),
{
    sorted.to_multiset_ensures();
    items.to_multiset_ensures();
    assert forall|i: int| n <= i < plan.len() implies spec_names_one_of(
        (#[trigger] plan[i]).path@,
        dirs,
    ) by {
        let item = sorted[i - n];
        assert(sorted.contains(item));
        assert(sorted.to_multiset().count(item) > 0);
        assert(items.to_multiset().count(item) > 0);
        assert(items.contains(item));
        let k = choose|k: int| 0 <= k < items.len() && items[k] == item;
        assert(0 <= k < dirs.len() && plan[i].path@ == dirs[k]@);
    }
    assert forall|k: int| 0 <= k < dirs.len() implies spec_planned_after(
        (#[trigger] dirs[k])@,
        plan,
        n,
    ) by {
        let item = items[k];
        assert(items.contains(item));
        assert(items.to_multiset().count(item) > 0);
        assert(sorted.to_multiset().count(item) > 0);
        assert(sorted.contains(item));
        let s = choose|s: int| 0 <= s < sorted.len() && sorted[s] == item;
        assert(n <= s + n < plan.len() && dirs[k]@ == plan[s + n].path@);
    }
}

/// Order the delete work discovered by one traversal: all files first, then
/// the directories, deepest first.
#[verifier::rlimit(30)]
pub fn plan_delete(files: Vec<String>, dirs: Vec<String>) -> (plan: Vec<DeleteJob>)
    ensures
        spec_delete_plan_ok(plan@, files@, dirs@),
{
    let ghost files_view = files@;
    let ghost dirs_view = dirs@;
    let mut plan: Vec<DeleteJob> = Vec::new();
    let n_files = files.len();
    for fi in 0..n_files
        invariant
            n_files == files_view.len(),
            files@ == files_view,
            plan@.len() == fi,
            forall|i: int|
                0 <= i < fi ==> (#[trigger] plan@[i]).path@ == files_view[i]@
                    && !plan@[i].is_directory,
    {
        let p = files[fi].clone();
        plan.push(DeleteJob { path: p, is_directory: false });
    }

    // Compute each directory's depth once.
    let mut items: Vec<DirItem> = Vec::new();
    let n_dirs = dirs.len();
    for di in 0..n_dirs
        invariant
            n_dirs == dirs_view.len(),
            dirs@ == dirs_view,
            items@.len() == di,
            dir_items_wf(items@),
            forall|i: int| 0 <= i < di ==> (#[trigger] items@[i]).path@ == dirs_view[i]@,
    {
        let p = dirs[di].clone();
        let d = path_depth(p.as_str());
        items.push(DirItem { path: p, depth: d });
    }
    let ghost items_view = items@;

    let sorted = sort_dirs_deepest_first(items);
    let ghost sorted_view = sorted@;

    // Append the sorted directories to the plan.
    let n_sorted = sorted.len();
    let ghost n_plan_files = plan@.len();
    for si in 0..n_sorted
        invariant
            n_sorted == sorted_view.len(),
            sorted@ == sorted_view,
            n_plan_files == files_view.len(),
            plan@.len() == n_plan_files + si,
            forall|i: int|
                0 <= i < n_plan_files ==> (#[trigger] plan@[i]).path@ == files_view[i]@
                    && !plan@[i].is_directory,
            forall|i: int|
                n_plan_files <= i < plan@.len() ==> (#[trigger] plan@[i]).is_directory
                    && plan@[i].path@ == sorted_view[i - n_plan_files].path@,
    {
        let p = sorted[si].path.clone();
        plan.push(DeleteJob { path: p, is_directory: true });
    }
    proof {
        assert forall|i: int, j: int| n_plan_files <= i <= j < plan@.len() implies spec_depth(
            #[trigger] plan@[i].path@,
        ) >= spec_depth(#[trigger] plan@[j].path@) by {
            assert(sorted_view[i - n_plan_files].depth >= sorted_view[j - n_plan_files].depth);
        }
        lemma_dirs_coverage(plan@, sorted_view, items_view, dirs_view, n_plan_files as int);
    }
    plan
}

/// The ordering guarantee of the delete plan: anything lying under a
/// directory of the plan stands strictly earlier in the plan than that
/// directory, so FIFO workers finish every child before its parent.
pub proof fn lemma_children_before_parents(
    plan: Seq<DeleteJob>,
    files: Seq<String>,
    dirs: Seq<String>,
    i: int,
    j: int,
)
    requires
        spec_delete_plan_ok(plan, files, dirs),
        0 <= i < plan.len(),
        0 <= j < plan.len(),
        plan[i].is_directory,
        spec_is_under(plan[j].path@, plan[i].path@),
    ensures
        j < i,
{
    lemma_under_is_deeper(plan[j].path@, plan[i].path@);
    if j >= files.len() && j >= i {
        assert(spec_depth(plan[i].path@) >= spec_depth(plan[j].path@));
    }
    if j < files.len() && i < files.len() {
        assert(!plan[i].is_directory);
    }
}

} // verus!
