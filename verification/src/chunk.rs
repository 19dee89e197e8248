//! Chunk planning for incremental sync of large files.
//!
//! A large, already-present file is split into fixed-size chunks; each chunk
//! is compared and, when it differs, rewritten independently. Chunks of one
//! file touch disjoint byte ranges, so they may be processed concurrently
//! and in any order. The final chunk is truncated to the file's remainder.

use vstd::prelude::*;
use crate::checksum::{adler32_of, spec_chunk_differs, chunk_needs_write};

verus! {

/// Default chunk size: 1 MiB.
pub const DEFAULT_CHUNK_SIZE: usize = 1 << 20;

/// Files at or above this size take the chunked path when the destination
/// already exists: 32 MiB.
pub const LARGE_FILE_THRESHOLD: u64 = 32 * 1024 * 1024;

/// One chunk of one file: a contiguous byte range, compared and rewritten
/// independently of the file's other chunks.
pub struct ChunkJob {
    pub src_path: String,
    pub dst_path: String,
    pub chunk_index: usize,
    pub offset: u64,
    pub size: usize,
}

/// The number of chunks a file of `file_size` bytes splits into.
pub open spec fn spec_num_chunks(file_size: int, chunk_size: int) -> int {
    (file_size + chunk_size - 1) / chunk_size
}

/// Each job of a chunk plan, in order: the right paths, index `i` at offset
/// `i * chunk_size`, full-size except where the file ends first, never empty
/// and never past the end of the file.
pub open spec fn spec_chunk_jobs_ok(
    plan: Seq<ChunkJob>,
    src_path: Seq<char>,
    dst_path: Seq<char>,
    file_size: int,
    chunk_size: int,
) -> bool {
    forall|i: int|
        0 <= i < plan.len() ==> {
            &&& (#[trigger] plan[i]).src_path@ == src_path
            &&& plan[i].dst_path@ == dst_path
            &&& plan[i].chunk_index == i
            &&& plan[i].offset == i * chunk_size
            &&& plan[i].size == if i * chunk_size + chunk_size <= file_size {
                chunk_size
            } else {
                file_size - i * chunk_size
            }
            &&& plan[i].size > 0
            &&& plan[i].offset + plan[i].size <= file_size
        }
}

/// What a correct chunk plan for a file looks like: one job per chunk, in
/// order, each covering the byte range from its offset to the next chunk's
/// offset, all within the file, with only the final chunk short.
pub open spec fn spec_chunk_plan_ok(
    plan: Seq<ChunkJob>,
    src_path: Seq<char>,
    dst_path: Seq<char>,
    file_size: int,
    chunk_size: int,
) -> bool {
    &&& plan.len() == spec_num_chunks(file_size, chunk_size)
    &&& spec_chunk_jobs_ok(plan, src_path, dst_path, file_size, chunk_size)
}

/// Split a file into its chunk jobs. The resulting ranges are pairwise
/// disjoint, ordered, and cover the file exactly.
pub fn plan_chunks(src_path: &str, dst_path: &str, file_size: u64, chunk_size: usize) -> (plan: Vec<
    ChunkJob,
>)
    requires
        chunk_size >= 1,
    ensures
        spec_chunk_plan_ok(plan@, src_path@, dst_path@, file_size as int, chunk_size as int),
{
    let mut plan: Vec<ChunkJob> = Vec::new();
    let mut offset: u64 = 0;
    let cs = chunk_size as u64;
    proof {
        assert(plan@.len() * cs == 0) by (nonlinear_arith)
            requires
                plan@.len() == 0,
        ;
    }
    while file_size - offset >= cs
        invariant
            chunk_size >= 1,
            cs == chunk_size,
            offset == plan@.len() * cs,
            offset <= file_size,
            spec_chunk_jobs_ok(plan@, src_path@, dst_path@, file_size as int, cs as int),
        decreases file_size - offset,
    {
        let idx = plan.len();
        plan.push(
            ChunkJob {
                src_path: src_path.to_owned(),
                dst_path: dst_path.to_owned(),
                chunk_index: idx,
                offset,
                size: chunk_size,
            },
        );
        proof {
            assert((idx + 1) * cs == idx * cs + cs) by (nonlinear_arith);
        }
        offset = offset + cs;
    }
    let idx = plan.len();
    if offset < file_size {
        let remaining = file_size - offset;
        plan.push(
            ChunkJob {
                src_path: src_path.to_owned(),
                dst_path: dst_path.to_owned(),
                chunk_index: idx,
                offset,
                size: remaining as usize,
            },
        );
        proof {
            lemma_num_chunks_last(file_size as int, cs as int, idx + 1);
        }
    } else {
        proof {
            lemma_num_chunks_exact(file_size as int, cs as int, idx as int);
        }
    }
    plan
}

/// A file that ends after chunk `k - 1` begins and not after chunk `k - 1`
/// ends splits into exactly `k` chunks.
proof fn lemma_num_chunks_bounded(n: int, cs: int, k: int)
    requires
        cs >= 1,
        k >= 1,
        (k - 1) * cs < n,
        n <= k * cs,
    ensures
        spec_num_chunks(n, cs) == k,
{
    assert((n + cs - 1) / cs == k) by (nonlinear_arith)
        requires
            cs >= 1,
            (k - 1) * cs < n,
            n <= k * cs,
    ;
}

/// When the file ends inside chunk `k`, the plan has exactly `k + 1` chunks.
proof fn lemma_num_chunks_last(file_size: int, chunk_size: int, k: int)
    requires
        chunk_size >= 1,
        k >= 1,
        (k - 1) * chunk_size < file_size,
        file_size < (k - 1) * chunk_size + chunk_size,
    ensures
        spec_num_chunks(file_size, chunk_size) == k,
{
    assert((file_size + chunk_size - 1) / chunk_size == k) by (nonlinear_arith)
        requires
            chunk_size >= 1,
            (k - 1) * chunk_size < file_size,
            file_size < (k - 1) * chunk_size + chunk_size,
    ;
}

/// When the file ends exactly on a chunk boundary, the plan has exactly
/// `k` chunks.
proof fn lemma_num_chunks_exact(file_size: int, chunk_size: int, k: int)
    requires
        chunk_size >= 1,
        k >= 0,
        file_size == k * chunk_size,
    ensures
        spec_num_chunks(file_size, chunk_size) == k,
{
    assert((k * chunk_size + chunk_size - 1) / chunk_size == k) by (nonlinear_arith)
        requires
            chunk_size >= 1,
            k >= 0,
    ;
}

/// The smaller of two values.
pub open spec fn spec_min(a: int, b: int) -> int {
    if a < b {
        a
    } else {
        b
    }
}

/// Chunk `i` of the source: up to `cs` bytes from offset `i * cs`.
pub open spec fn spec_src_chunk(src: Seq<u8>, cs: int, i: int) -> Seq<u8> {
    src.subrange(i * cs, spec_min(i * cs + cs, src.len() as int))
}

/// What a worker reads from the destination for chunk `i`: the same byte
/// range, truncated at the destination's end.
pub open spec fn spec_dst_chunk(src: Seq<u8>, dst: Seq<u8>, cs: int, i: int) -> Seq<u8> {
    let lo = spec_min(i * cs, dst.len() as int);
    let hi = spec_min(i * cs + spec_src_chunk(src, cs, i).len(), dst.len() as int);
    dst.subrange(lo, hi)
}

/// Chunk `i` after the sync: the source bytes when the compared ranges
/// differ in length or checksum, and the destination bytes untouched
/// otherwise.
pub open spec fn spec_merged_chunk(src: Seq<u8>, dst: Seq<u8>, cs: int, i: int) -> Seq<u8> {
    if spec_chunk_differs(spec_src_chunk(src, cs, i), spec_dst_chunk(src, dst, cs, i)) {
        spec_src_chunk(src, cs, i)
    } else {
        spec_dst_chunk(src, dst, cs, i)
    }
}

/// The first `k` chunks after the sync, in order.
pub open spec fn spec_merge_prefix(src: Seq<u8>, dst: Seq<u8>, cs: int, k: int) -> Seq<u8>
    decreases k,
{
    if k <= 0 {
        Seq::empty()
    } else {
        spec_merge_prefix(src, dst, cs, k - 1) + spec_merged_chunk(src, dst, cs, k - 1)
    }
}

/// The destination's content after a chunked sync: every chunk of the
/// source's range merged, and the destination's tail beyond the source's
/// length left as it was (a chunked sync never truncates).
pub open spec fn spec_sync_content(src: Seq<u8>, dst: Seq<u8>, cs: int) -> Seq<u8> {
    spec_merge_prefix(src, dst, cs, spec_num_chunks(src.len() as int, cs)) + if dst.len()
        > src.len() {
        dst.skip(src.len() as int)
    } else {
        Seq::empty()
    }
}

/// How many of the first `k` chunks differ and are therefore written.
pub open spec fn spec_written_chunks(src: Seq<u8>, dst: Seq<u8>, cs: int, k: int) -> int
    decreases k,
{
    if k <= 0 {
        0
    } else {
        spec_written_chunks(src, dst, cs, k - 1) + if spec_chunk_differs(
            spec_src_chunk(src, cs, k - 1),
            spec_dst_chunk(src, dst, cs, k - 1),
        ) {
            1int
        } else {
            0int
        }
    }
}

/// Copy the byte range `[lo, hi)` of `v` into a fresh buffer.
fn copy_range(v: &Vec<u8>, lo: usize, hi: usize) -> (out: Vec<u8>)
    requires
        lo <= hi <= v@.len(),
    ensures
        out@ == v@.subrange(lo as int, hi as int),
{
    let mut out: Vec<u8> = Vec::new();
    let mut i: usize = lo;
    proof {
        assert(v@.subrange(lo as int, lo as int) =~= Seq::<u8>::empty());
    }
    while i < hi
        invariant
            lo <= i <= hi <= v@.len(),
            out@ == v@.subrange(lo as int, i as int),
        decreases hi - i,
    {
        out.push(v[i]);
        proof {
            assert(v@.subrange(lo as int, i + 1) =~= v@.subrange(lo as int, i as int).push(
                v@[i as int],
            ));
        }
        i = i + 1;
    }
    out
}

/// Append all of `chunk` to `out`.
fn append_bytes(out: &mut Vec<u8>, chunk: &Vec<u8>)
    ensures
        final(out)@ == old(out)@ + chunk@,
{
    let n = chunk.len();
    proof {
        assert(chunk@.take(0) =~= Seq::<u8>::empty());
        assert(out@ + chunk@.take(0) =~= out@);
    }
    for i in 0..n
        invariant
            n == chunk@.len(),
            out@ == old(out)@ + chunk@.take(i as int),
        decreases n - i,
    {
        out.push(chunk[i]);
        proof {
            assert(chunk@.take(i + 1) =~= chunk@.take(i as int).push(chunk@[i as int]));
            assert(old(out)@ + chunk@.take(i + 1) =~= (old(out)@ + chunk@.take(i as int)).push(
                chunk@[i as int],
            ));
        }
    }
    proof {
        assert(chunk@.take(n as int) =~= chunk@);
    }
}

/// Apply a chunked sync to in-memory contents: compare each chunk of the
/// source range against the destination and keep the destination's bytes
/// wherever length and checksum agree, writing the source's bytes
/// everywhere else. Returns the destination's new content and how many
/// chunks were written.
pub fn merge_chunks(src: &Vec<u8>, dst: &Vec<u8>, chunk_size: usize) -> (r: (Vec<u8>, usize))
    requires
        chunk_size >= 1,
    ensures
        r.0@ == spec_sync_content(src@, dst@, chunk_size as int),
        r.1 == spec_written_chunks(
            src@,
            dst@,
            chunk_size as int,
            spec_num_chunks(src@.len() as int, chunk_size as int),
        ),
{
    let cs = chunk_size;
    let ghost csi = chunk_size as int;
    let mut out: Vec<u8> = Vec::new();
    let mut written: usize = 0;
    let mut offset: usize = 0;
    let mut i: usize = 0;
    let n = src.len();
    while offset < n
        invariant
            cs == chunk_size,
            csi == cs,
            cs >= 1,
            n == src@.len(),
            offset == spec_min(i * csi, n as int),
            i == 0 || (i - 1) * csi < n,
            i <= n,
            written <= i,
            out@ == spec_merge_prefix(src@, dst@, csi, i as int),
            written == spec_written_chunks(src@, dst@, csi, i as int),
        decreases n - offset,
    {
        proof {
            assert(offset == i * csi);
            assert(i <= i * csi) by (nonlinear_arith)
                requires
                    csi >= 1,
                    i >= 0,
            ;
        }
        let hi = if n - offset < cs {
            n
        } else {
            offset + cs
        };
        let s_chunk = copy_range(src, offset, hi);
        let d_lo = if offset < dst.len() {
            offset
        } else {
            dst.len()
        };
        let d_hi = if hi < dst.len() {
            hi
        } else {
            dst.len()
        };
        let d_chunk = copy_range(dst, d_lo, d_hi);
        proof {
            assert(s_chunk@ =~= spec_src_chunk(src@, csi, i as int));
            assert(d_chunk@ =~= spec_dst_chunk(src@, dst@, csi, i as int));
        }
        if chunk_needs_write(s_chunk.as_slice(), d_chunk.as_slice()) {
            append_bytes(&mut out, &s_chunk);
            written = written + 1;
        } else {
            append_bytes(&mut out, &d_chunk);
        }
        proof {
            assert((i + 1) * csi == i * csi + csi) by (nonlinear_arith);
        }
        offset = hi;
        i = i + 1;
    }
    proof {
        if n == 0 {
            assert(i * csi >= 0) by (nonlinear_arith)
                requires
                    i >= 0,
                    csi >= 1,
            ;
            assert(i == 0 || (i - 1) * csi < n);
            if i != 0 {
                assert((i - 1) * csi >= 0) by (nonlinear_arith)
                    requires
                        i >= 1,
                        csi >= 1,
                ;
            }
            assert(i == 0);
            assert((csi - 1) / csi == 0) by (nonlinear_arith)
                requires
                    csi >= 1,
            ;
            assert(spec_num_chunks(0, csi) == 0);
        } else {
            assert(offset == n);
            assert(i >= 1);
            assert(n <= i * csi);
            lemma_num_chunks_bounded(n as int, csi, i as int);
        }
    }
    if dst.len() > n {
        let tail = copy_range(dst, n, dst.len());
        append_bytes(&mut out, &tail);
        proof {
            assert(dst@.subrange(n as int, dst@.len() as int) =~= dst@.skip(n as int));
        }
    } else {
        proof {
            assert(out@ + Seq::<u8>::empty() =~= out@);
        }
    }
    (out, written)
}

/// Every chunk index of a file starts strictly inside it.
proof fn lemma_chunk_bounds(len: int, cs: int, i: int)
    requires
        cs >= 1,
        len >= 0,
        0 <= i < spec_num_chunks(len, cs),
    ensures
        i * cs < len,
{
    assert(i * cs < len) by (nonlinear_arith)
        requires
            cs >= 1,
            len >= 0,
            0 <= i < (len + cs - 1) / cs,
    ;
}

/// The chunks of a file together reach at least to its end.
proof fn lemma_chunks_cover(len: int, cs: int)
    requires
        cs >= 1,
        len >= 0,
    ensures
        spec_num_chunks(len, cs) * cs >= len,
        spec_num_chunks(len, cs) >= 0,
{
    assert(((len + cs - 1) / cs) * cs >= len && (len + cs - 1) / cs >= 0) by (nonlinear_arith)
        requires
            cs >= 1,
            len >= 0,
    ;
}

/// When every merged chunk equals its source chunk, the merged prefix is
/// exactly the source's prefix.
proof fn lemma_merge_prefix_source(src: Seq<u8>, dst: Seq<u8>, cs: int, k: int)
    requires
        cs >= 1,
        0 <= k <= spec_num_chunks(src.len() as int, cs),
        forall|i: int|
            0 <= i < k ==> #[trigger] spec_merged_chunk(src, dst, cs, i) == spec_src_chunk(
                src,
                cs,
                i,
            ),
    ensures
        spec_merge_prefix(src, dst, cs, k) == src.take(spec_min(k * cs, src.len() as int)),
    decreases k,
{
    let len = src.len() as int;
    if k == 0 {
        assert(k * cs == 0) by (nonlinear_arith)
            requires
                k == 0,
        ;
        assert(src.take(0) =~= Seq::<u8>::empty());
    } else {
        lemma_merge_prefix_source(src, dst, cs, k - 1);
        lemma_chunk_bounds(len, cs, k - 1);
        assert((k - 1) * cs == k * cs - cs) by (nonlinear_arith);
        assert(spec_merged_chunk(src, dst, cs, k - 1) == spec_src_chunk(src, cs, k - 1));
        assert(spec_merge_prefix(src, dst, cs, k) == spec_merge_prefix(src, dst, cs, k - 1)
            + spec_merged_chunk(src, dst, cs, k - 1));
        assert(src.take(spec_min((k - 1) * cs, len)) + spec_src_chunk(src, cs, k - 1) =~= src.take(
            spec_min(k * cs, len),
        ));
        assert(spec_merge_prefix(src, dst, cs, k) == src.take(spec_min(k * cs, len)));
    }
}

/// A destination that already equals the source is never written: every
/// chunk compares equal, so the merge leaves each chunk untouched and the
/// result is the source's content.
pub proof fn lemma_sync_identical_untouched(src: Seq<u8>, cs: int)
    requires
        cs >= 1,
    ensures
        spec_sync_content(src, src, cs) == src,
        spec_written_chunks(src, src, cs, spec_num_chunks(src.len() as int, cs)) == 0,
{
    let len = src.len() as int;
    let nc = spec_num_chunks(len, cs);
    assert forall|i: int| 0 <= i < nc implies #[trigger] spec_dst_chunk(src, src, cs, i)
        == spec_src_chunk(src, cs, i) && spec_merged_chunk(src, src, cs, i) == spec_src_chunk(
        src,
        cs,
        i,
    ) by {
        lemma_chunk_bounds(len, cs, i);
        assert(spec_dst_chunk(src, src, cs, i) =~= spec_src_chunk(src, cs, i));
    }
    lemma_chunks_cover(len, cs);
    lemma_merge_prefix_source(src, src, cs, nc);
    assert(src.take(spec_min(nc * cs, len)) =~= src);
    assert(spec_merge_prefix(src, src, cs, nc) + Seq::<u8>::empty() =~= src);
    lemma_written_zero(src, src, cs, nc);
}

/// When no compared chunk differs, nothing is counted as written.
proof fn lemma_written_zero(src: Seq<u8>, dst: Seq<u8>, cs: int, k: int)
    requires
        forall|i: int|
            0 <= i < k ==> !spec_chunk_differs(
                #[trigger] spec_src_chunk(src, cs, i),
                spec_dst_chunk(src, dst, cs, i),
            ),
    ensures
        spec_written_chunks(src, dst, cs, k) == 0,
    decreases k,
{
    if k > 0 {
        lemma_written_zero(src, dst, cs, k - 1);
    }
}

/// Chunk precision of the sync: for a destination of the source's length,
/// if the checksum never collides on the compared chunks — equal checksums
/// only on equal bytes — the merged destination is byte-identical to the
/// source, whichever chunks differed.
pub proof fn lemma_sync_chunk_precision(src: Seq<u8>, dst: Seq<u8>, cs: int)
    requires
        cs >= 1,
        src.len() == dst.len(),
        forall|i: int|
            0 <= i < spec_num_chunks(src.len() as int, cs) ==> (adler32_of(
                #[trigger] spec_src_chunk(src, cs, i),
            ) == adler32_of(spec_dst_chunk(src, dst, cs, i)) && spec_src_chunk(src, cs, i).len()
                == spec_dst_chunk(src, dst, cs, i).len() ==> spec_src_chunk(src, cs, i)
                == spec_dst_chunk(src, dst, cs, i)),
    ensures
        spec_sync_content(src, dst, cs) == src,
{
    let len = src.len() as int;
    let nc = spec_num_chunks(len, cs);
    assert forall|i: int| 0 <= i < nc implies #[trigger] spec_merged_chunk(src, dst, cs, i)
        == spec_src_chunk(src, cs, i) by {
        lemma_chunk_bounds(len, cs, i);
        if !spec_chunk_differs(spec_src_chunk(src, cs, i), spec_dst_chunk(src, dst, cs, i)) {
            assert(spec_src_chunk(src, cs, i) == spec_dst_chunk(src, dst, cs, i));
        }
    }
    lemma_chunks_cover(len, cs);
    lemma_merge_prefix_source(src, dst, cs, nc);
    assert(src.take(spec_min(nc * cs, len)) =~= src);
    assert(spec_merge_prefix(src, dst, cs, nc) + Seq::<u8>::empty() =~= src);
}

/// Chunks of one plan touch pairwise disjoint byte ranges: a chunk ends at
/// or before where any later chunk begins.
pub proof fn lemma_chunks_disjoint(
    plan: Seq<ChunkJob>,
    src_path: Seq<char>,
    dst_path: Seq<char>,
    file_size: int,
    chunk_size: int,
    i: int,
    j: int,
)
    requires
        chunk_size >= 1,
        spec_chunk_plan_ok(plan, src_path, dst_path, file_size, chunk_size),
        0 <= i < j < plan.len(),
    ensures
        plan[i].offset + plan[i].size <= plan[j].offset,
{
    assert(i * chunk_size + chunk_size <= j * chunk_size) by (nonlinear_arith)
        requires
            chunk_size >= 1,
            i < j,
    ;
}

} // verus!
