//! Parallel file-tree synchronization engine.
//!
//! The crate holds the decision and planning core of a parallel copy /
//! delete / chunked-sync tool: which files a traversal selects, how delete
//! work is ordered so that children always go before their parents, how a
//! large file is split into chunks and which chunks must be rewritten, how
//! remote commands are built and their output read, and how per-item
//! failures are aggregated without stopping other work. The engines' effect
//! on a tree is modelled and its laws — copy completeness, copy idempotence,
//! delete ordering, dry-run as a no-op, chunk precision — are proved on the
//! model. The surrounding I/O (directory walking, threads, syscalls, SSH
//! transport) lives outside the library and drives these verified functions.

pub mod backend;
pub mod checksum;
pub mod chunk;
pub mod copy_plan;
pub mod delete_plan;
pub mod errors;
pub mod filter;
pub mod paths;
pub mod progress;
pub mod source_sink;
pub mod ssh;
pub mod sync_plan;
pub mod tree;

pub use backend::{BackendKind, LocalBackend, backend_and_path};
pub use chunk::{DEFAULT_CHUNK_SIZE, LARGE_FILE_THRESHOLD};
pub use copy_plan::CopyOptions;
pub use errors::SyncError;
pub use source_sink::{LocalSink, LocalSource, Sink, Source};
pub use ssh::{SSHSessionHelper, SSHSink, SSHSource};
