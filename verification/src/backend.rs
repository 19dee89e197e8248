//! Backend selection: which storage a protocol-prefixed path names, and how
//! a copy worker routes one job once it knows both endpoints' locality.
//!
//! Locality is a tag queried once per engine invocation: when both endpoints
//! are local, workers take the OS-accelerated copy path; otherwise they fall
//! back to whole-file get/put through the capability interfaces. The choice
//! is a performance matter only — both routes must produce the same bytes.

use vstd::prelude::*;
use crate::errors::SyncError;
use crate::paths::str_eq;

verus! {

/// The local filesystem backend. It carries no state: every operation takes
/// the full path it works on.
pub struct LocalBackend;

impl LocalBackend {
    /// A handle on the local filesystem.
    pub fn new() -> LocalBackend {
        LocalBackend
    }

    /// The locality tag: the local backend is what enables the
    /// OS-accelerated copy path.
    pub fn is_local(&self) -> (r: bool)
        ensures
            r,
    {
        true
    }
}

/// Which storage a protocol-prefixed path names.
#[derive(Clone, Copy, Debug, PartialEq, Eq, Structural)]
pub enum BackendKind {
    Local,
}

/// Whether the scheme marker `://` stands at position `i` of `u`.
pub open spec fn spec_scheme_at(u: Seq<char>, i: int) -> bool {
    0 <= i && i + 3 <= u.len() && u[i] == ':' && u[i + 1] == '/' && u[i + 2] == '/'
}

/// Whether `i` is the first scheme marker of `u`.
pub open spec fn spec_first_scheme_at(u: Seq<char>, i: int) -> bool {
    spec_scheme_at(u, i) && forall|j: int| 0 <= j < i ==> !spec_scheme_at(u, j)
}

/// The error text for an unsupported protocol.
pub open spec fn spec_protocol_error(scheme: Seq<char>) -> Seq<char> {
    "Unsupported protocol: "@ + scheme
}

/// Resolve a protocol-prefixed path. A `file` scheme, or no scheme marker at
/// all, names the local backend; any other scheme is rejected by name. The
/// returned path is the input with the scheme stripped.
pub fn backend_and_path(url: &str) -> (r: Result<(BackendKind, String), SyncError>)
    ensures
        match r {
            Ok(p) => p.0 == BackendKind::Local && ((exists|i: int|
                #[trigger] spec_first_scheme_at(url@, i) && url@.subrange(0, i) == "file"@ && p.1@
                    == url@.skip(i + 3)) || ((forall|i: int| !spec_scheme_at(url@, i)) && p.1@
                == url@)),
            Err(e) => e matches SyncError::Other(m) && (exists|i: int|
                #[trigger] spec_first_scheme_at(url@, i) && url@.subrange(0, i) != "file"@ && m@
                    == spec_protocol_error(url@.subrange(0, i))),
        },
{
    let n = url.unicode_len();
    let mut i: usize = 0;
    proof {
        reveal_strlit("file");
    }
    while n - i >= 3
        invariant
            i <= n,
            n == url@.len(),
            forall|j: int| 0 <= j < i ==> !spec_scheme_at(url@, j),
        decreases n - i,
    {
        if url.get_char(i) == ':' && url.get_char(i + 1) == '/' && url.get_char(i + 2) == '/' {
            proof {
                assert(spec_first_scheme_at(url@, i as int));
            }
            let proto = url.substring_char(0, i);
            if str_eq(proto, "file") {
                let rest = url.substring_char(i + 3, n).to_owned();
                proof {
                    assert(url@.subrange(i as int + 3, n as int) =~= url@.skip(i as int + 3));
                    assert(spec_first_scheme_at(url@, i as int) && url@.subrange(0, i as int)
                        == "file"@ && rest@ == url@.skip(i as int + 3));
                }
                return Ok((BackendKind::Local, rest));
            } else {
                proof {
                    reveal_strlit("Unsupported protocol: ");
                }
                let mut m = String::new();
                m.append("Unsupported protocol: ");
                m.append(proto);
                proof {
                    assert(Seq::<char>::empty() + "Unsupported protocol: "@ + proto@
                        =~= spec_protocol_error(url@.subrange(0, i as int)));
                    assert(spec_first_scheme_at(url@, i as int) && url@.subrange(0, i as int)
                        != "file"@ && m@ == spec_protocol_error(url@.subrange(0, i as int)));
                }
                return Err(SyncError::Other(m));
            }
        }
        i = i + 1;
    }
    proof {
        assert forall|j: int| !spec_scheme_at(url@, j) by {
            if spec_scheme_at(url@, j) {
                assert(0 <= j < i || j + 3 > n);
            }
        }
    }
    Ok((BackendKind::Local, url.to_owned()))
}

/// How a copy worker moves one job's bytes.
#[derive(Clone, Copy, Debug, PartialEq, Eq, Structural)]
pub enum CopyRoute {
    /// Dry run: no mutation, progress only.
    SkipMutation,
    /// Both endpoints local: the OS-accelerated fast-copy primitive.
    FastLocal,
    /// Anything else: read the whole file from the source capability and
    /// write it through the destination capability.
    GetPut,
}

/// The route of one copy job, from the dry-run flag and the two locality
/// tags.
pub open spec fn spec_copy_route(dry_run: bool, src_local: bool, dst_local: bool) -> CopyRoute {
    if dry_run {
        CopyRoute::SkipMutation
    } else if src_local && dst_local {
        CopyRoute::FastLocal
    } else {
        CopyRoute::GetPut
    }
}

/// Decide how a worker moves one job's bytes: a dry run touches nothing,
/// two local endpoints take the accelerated path, and any other pair falls
/// back to whole-file get/put.
pub fn copy_route(dry_run: bool, src_local: bool, dst_local: bool) -> (r: CopyRoute)
    ensures
        r == spec_copy_route(dry_run, src_local, dst_local),
        dry_run <==> r == CopyRoute::SkipMutation,
{
    if dry_run {
        CopyRoute::SkipMutation
    } else if src_local && dst_local {
        CopyRoute::FastLocal
    } else {
        CopyRoute::GetPut
    }
}

} // verus!
