//! Typed errors and diagnostics, with the source locations they point at.
use vstd::prelude::*;
use core::ops::RangeInclusive;

pub mod backend_error;
pub mod backend_error_kind;
pub mod diagnostic;
pub mod diagnostic_kind;
pub mod error_location;

verus! {

/// Number of lines shown before and after the lines an error is about.
pub const ERROR_CONTEXT: usize = 3;

/// Widens `range` by `ERROR_CONTEXT` lines on both sides, as far as a text of
/// `line_cnt` lines allows: the start stops at line 0 and the end at the last
/// line.
pub fn extend_error_range(range: &RangeInclusive<usize>, line_cnt: usize) -> (r: RangeInclusive<
    usize,
>)
    ensures
        r@.start == if range@.start >= ERROR_CONTEXT {
            range@.start - ERROR_CONTEXT
        } else {
            0
        },
        r@.end == if line_cnt == 0 {
            0
        } else if range@.end + ERROR_CONTEXT <= line_cnt - 1 {
            range@.end + ERROR_CONTEXT
        } else {
            line_cnt - 1
        },
        !r@.exhausted,
{
    let first: usize = *range.start();
    let last: usize = *range.end();
    let start: usize = if first >= ERROR_CONTEXT {
        first - ERROR_CONTEXT
    } else {
        0
    };
    let last_line: usize = if line_cnt == 0 {
        0
    } else {
        line_cnt - 1
    };
    let end: usize = if last <= last_line && last_line - last >= ERROR_CONTEXT {
        last + ERROR_CONTEXT
    } else {
        last_line
    };
    RangeInclusive::new(start, end)
}

} // verus!
