//! Checksums used for change detection.
//!
//! Chunk comparison uses a fast additive Adler-32 checksum: a single pass,
//! not cryptographically strong, chosen to cheaply decide whether two byte
//! ranges likely differ. Whole-file verification uses a Blake3 digest in
//! lowercase hexadecimal. Both are functions of the bytes alone; the library
//! names their results and reasons about equality of the names.

use vstd::prelude::*;

verus! {

/// The Adler-32 checksum of a byte sequence.
pub uninterp spec fn adler32_of(data: Seq<u8>) -> u32;

/// The Blake3 digest of a byte sequence, as 64 lowercase hex digits.
pub uninterp spec fn blake3_hex_of(data: Seq<u8>) -> Seq<char>;

/// Relies on adler::adler32_slice: the Adler-32 checksum of a slice,
/// a function of the bytes alone.
#[verifier::external_body]
fn adler32_bytes(data: &[u8]) -> (r: u32)
    ensures
        r == adler32_of(data@),
{
    adler::adler32_slice(data)
}

/// Relies on blake3::hash and blake3::Hash::to_hex: a digest of the bytes
/// alone, rendered as exactly 64 lowercase hexadecimal characters.
#[verifier::external_body]
fn blake3_hex_bytes(data: &[u8]) -> (r: String)
    ensures
        r@ == blake3_hex_of(data@),
        r@.len() == 64,
{
    blake3::hash(data).to_hex().as_str().to_owned()
}

/// The Adler-32 checksum of a chunk's bytes.
pub fn chunk_checksum(data: &[u8]) -> (r: u32)
    ensures
        r == adler32_of(data@),
{
    adler32_bytes(data)
}

/// The Blake3 content digest of a whole file's bytes, in hexadecimal.
pub fn content_hash(data: &[u8]) -> (r: String)
    ensures
        r@ == blake3_hex_of(data@),
        r@.len() == 64,
{
    blake3_hex_bytes(data)
}

/// Whether a destination chunk must be rewritten from the source: exactly
/// when the byte ranges read differ in length or in Adler-32 checksum.
pub open spec fn spec_chunk_differs(src: Seq<u8>, dst: Seq<u8>) -> bool {
    src.len() != dst.len() || adler32_of(src) != adler32_of(dst)
}

/// Decide whether a chunk read from the source must be written over the
/// corresponding destination range.
pub fn chunk_needs_write(src: &[u8], dst: &[u8]) -> (r: bool)
    ensures
        r == spec_chunk_differs(src@, dst@),
{
    if src.len() != dst.len() {
        true
    } else {
        let src_sum = adler32_bytes(src);
        let dst_sum = adler32_bytes(dst);
        src_sum != dst_sum
    }
}

/// A chunk whose destination bytes already equal the source bytes is never
/// rewritten: the checksum is a function of the bytes, so equal ranges
/// always compare equal.
pub proof fn lemma_identical_chunk_is_skipped(src: Seq<u8>, dst: Seq<u8>)
    requires
        src == dst,
    ensures
        !spec_chunk_differs(src, dst),
{
}

/// Whether a source file may be skipped on the strength of content digests:
/// only when the destination reports a digest and the source digest equals it.
pub open spec fn spec_hashes_allow_skip(
    src_hash: Option<Seq<char>>,
    dst_hash: Option<Seq<char>>,
) -> bool {
    match (src_hash, dst_hash) {
        (Some(s), Some(d)) => s == d,
        _ => false,
    }
}

/// Decide whether matching content digests allow a file to be skipped.
pub fn hashes_allow_skip(src_hash: &Option<String>, dst_hash: &Option<String>) -> (r: bool)
    ensures
        r == spec_hashes_allow_skip(
            match src_hash {
                Some(s) => Some(s@),
                None => None,
            },
            match dst_hash {
                Some(d) => Some(d@),
                None => None,
            },
        ),
{
    match (src_hash, dst_hash) {
        (Some(s), Some(d)) => s.eq(d),
        _ => false,
    }
}

} // verus!
