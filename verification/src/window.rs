//! Windows of lines around a centre line: which of the indexed lines of a
//! file are to be read.

use vstd::prelude::*;

verus! {

/// The index of the first line of a window of `line_count` lines around line
/// `line_index`: half the window below the centre, but not below line zero.
pub open spec fn window_bottom(line_index: int, line_count: int) -> int {
    if line_index > line_count / 2 {
        line_index - line_count / 2
    } else {
        0
    }
}

/// The index of the first line of the window among `len` indexed lines.
pub open spec fn window_first(len: int, line_index: int, line_count: int) -> int {
    let bottom = window_bottom(line_index, line_count);
    if bottom < len {
        bottom
    } else {
        len
    }
}

/// The index after the last line of the window among `len` indexed lines.
pub open spec fn window_end(len: int, line_index: int, line_count: int) -> int {
    let top = window_bottom(line_index, line_count) + line_count;
    if top < len {
        top
    } else {
        len
    }
}

/// The offsets of the lines of a file that fall into the window of
/// `line_count` lines around line `line_index`.
///
/// The window starts at `line_index - line_count / 2`, or at line zero where
/// that is negative, and ends `line_count` lines later. A line of the window
/// that the file does not have contributes nothing: there is no padding.
pub fn window_offsets(positions: &Vec<usize>, line_index: usize, line_count: usize) -> (offsets:
    Vec<usize>)
    ensures
        offsets@ == positions@.subrange(
            window_first(positions@.len() as int, line_index as int, line_count as int),
            window_end(positions@.len() as int, line_index as int, line_count as int),
        ),
{
    let half = line_count / 2;
    let bottom = if line_index > half {
        line_index - half
    } else {
        0
    };
    let len = positions.len();
    let first = if bottom < len {
        bottom
    } else {
        len
    };
    let end = if line_count < len - first {
        first + line_count
    } else {
        len
    };
    let mut offsets: Vec<usize> = Vec::new();
    let mut i = first;
    while i < end
        invariant
            first <= i <= end <= positions@.len(),
            offsets@ == positions@.subrange(first as int, i as int),
        decreases end - i,
    {
        offsets.push(positions[i]);
        assert(offsets@ =~= positions@.subrange(first as int, i + 1));
        i += 1;
    }
    offsets
}

} // verus!
