//! Error taxonomy of the engine and the aggregation of per-item failures.
//!
//! A worker never aborts the whole run: each failed item is recorded, and at
//! the end of an engine invocation the collected failures are folded into a
//! single aggregate error that reports their count.

use vstd::prelude::*;

verus! {

/// Error taxonomy: an underlying I/O fault (with its rendered cause), a path
/// that was absent at access time, or a protocol-specific or aggregate fault
/// carrying a human-readable message.
#[derive(Debug, Clone, PartialEq, Eq)]
pub enum SyncError {
    Io(String),
    NotFound(String),
    Other(String),
}

impl SyncError {
    /// The message carried by this error, whatever its variant.
    pub fn message(&self) -> (r: &String)
        ensures
            r@ == self.message_spec(),
    {
        match self {
            SyncError::Io(m) => m,
            SyncError::NotFound(m) => m,
            SyncError::Other(m) => m,
        }
    }

    pub open spec fn message_spec(&self) -> Seq<char> {
        match self {
            SyncError::Io(m) => m@,
            SyncError::NotFound(m) => m@,
            SyncError::Other(m) => m@,
        }
    }
}

/// The decimal digit character for `d`.
pub open spec fn spec_digit_char(d: int) -> char
    recommends
        0 <= d < 10,
{
    ((d + 0x30) as u8) as char
}

/// The decimal rendering of a non-negative integer, most significant digit
/// first, with no leading zeros (except for zero itself).
pub open spec fn spec_dec(n: int) -> Seq<char>
    recommends
        n >= 0,
    decreases n,
{
    if n < 10 {
        seq![spec_digit_char(n)]
    } else {
        spec_dec(n / 10).push(spec_digit_char(n % 10))
    }
}

/// Relies on String::push: appends exactly the given character.
#[verifier::external_body]
fn push_char(s: &mut String, c: char)
    ensures
        final(s)@ == old(s)@.push(c),
{
    s.push(c);
}

/// Render `n` in decimal.
pub fn u64_to_dec(n: u64) -> (r: String)
    ensures
        r@ == spec_dec(n as int),
{
    let mut digits: Vec<char> = Vec::new();
    let mut m: u64 = n;
    loop
        invariant_except_break
            spec_dec(n as int) == spec_dec(m as int) + digits@.reverse(),
        ensures
            spec_dec(n as int) == digits@.reverse(),
        decreases m,
    {
        let ghost before = digits@;
        let d: u64 = m % 10;
        let c: char = digit_char(d);
        digits.push(c);
        proof {
            assert(digits@.reverse() =~= seq![c] + before.reverse());
        }
        if m < 10 {
            proof {
                assert(spec_dec(m as int) == seq![c]);
            }
            break;
        }
        proof {
            assert(spec_dec(m as int) == spec_dec(m as int / 10).push(
                spec_digit_char(m as int % 10),
            ));
            assert(spec_dec(m as int / 10) + digits@.reverse() =~= spec_dec(m as int) + before.reverse());
        }
        m = m / 10;
    }
    let ghost all = digits@;
    let mut r = String::new();
    let mut i: usize = digits.len();
    proof {
        assert(r@ =~= all.subrange(i as int, all.len() as int).reverse());
    }
    while i > 0
        invariant
            i <= all.len(),
            digits@ == all,
            r@ == all.subrange(i as int, all.len() as int).reverse(),
        decreases i,
    {
        i = i - 1;
        push_char(&mut r, digits[i]);
        proof {
            assert(all.subrange(i as int, all.len() as int).reverse() =~= all.subrange(
                i + 1,
                all.len() as int,
            ).reverse().push(all[i as int]));
        }
    }
    proof {
        assert(all.subrange(0, all.len() as int) =~= all);
    }
    r
}

/// The decimal digit character for `d`, executably.
fn digit_char(d: u64) -> (c: char)
    requires
        d < 10,
    ensures
        c == spec_digit_char(d as int),
{
    (0x30u8 + (d as u8)) as char
}

/// The message of the aggregate error: "<count> errors occurred during <op>".
pub open spec fn spec_aggregate_message(error_count: int, op: Seq<char>) -> Seq<char> {
    spec_dec(error_count) + " errors occurred during "@ + op
}

/// Fold the number of recorded per-item failures into the engine's overall
/// result: success exactly when nothing failed, otherwise a single aggregate
/// error reporting the count.
pub fn aggregate_result(error_count: usize, op: &str) -> (r: Result<(), SyncError>)
    ensures
        error_count == 0 <==> r is Ok,
        error_count > 0 ==> (match r {
            Ok(()) => false,
            Err(e) => e matches SyncError::Other(_) && e.message_spec() == spec_aggregate_message(
                error_count as int,
                op@,
            ),
        }),
{
    if error_count == 0 {
        Ok(())
    } else {
        let mut msg = u64_to_dec(error_count as u64);
        msg.append(" errors occurred during ");
        msg.append(op);
        Err(SyncError::Other(msg))
    }
}

} // verus!
