//! What an indexing pass finds, stated over the two files as a whole.
//!
//! A file is a sequence of lines none of which is empty: a line holds at
//! least its terminator, and the last line at least one character.

use crate::indexer::{
    first_mismatch_spec, index_spec, initial_model, line_at, line_start, mismatch_from, same_at,
    scan_from, step_continues, step_model, IndexModel, LengthComparison, PositionModel,
};
use crate::indexer::lemma_line_start_step;
use crate::pairing::longer_len;
use vstd::prelude::*;

verus! {

/// Whether no line of the file is empty.
pub open spec fn valid_file(lines: Seq<Seq<char>>) -> bool {
    forall|i: int| 0 <= i < lines.len() ==> (#[trigger] lines[i]).len() > 0
}

/// The length of the shorter of two files, in lines.
pub open spec fn shorter_len(lines1: Seq<Seq<char>>, lines2: Seq<Seq<char>>) -> nat {
    if lines1.len() <= lines2.len() {
        lines1.len()
    } else {
        lines2.len()
    }
}

/// The number of line pairs that a pass consumes: all up to the end of the
/// longer file, but at most `extra_lines` past the end of the shorter one.
pub open spec fn pairs_consumed(
    lines1: Seq<Seq<char>>,
    lines2: Seq<Seq<char>>,
    extra_lines: nat,
) -> nat {
    if longer_len(lines1, lines2) <= shorter_len(lines1, lines2) + extra_lines {
        longer_len(lines1, lines2)
    } else {
        shorter_len(lines1, lines2) + extra_lines
    }
}

/// The number of lines of a file that a pass indexes, where `other` is the
/// length of the other file: all of them, but at most `extra_lines` past the
/// end of the other file.
pub open spec fn lines_indexed(own: nat, other: nat, extra_lines: nat) -> nat {
    if own <= other + extra_lines {
        own
    } else {
        other + extra_lines
    }
}

/// Which of two files has more lines.
pub open spec fn length_order(lines1: Seq<Seq<char>>, lines2: Seq<Seq<char>>) -> LengthComparison {
    if lines1.len() == lines2.len() {
        LengthComparison::Equal
    } else if lines1.len() > lines2.len() {
        LengthComparison::File1Longer
    } else {
        LengthComparison::File2Longer
    }
}

/// The position of the line pair at index `k`, with the offset of its first
/// mismatch.
pub open spec fn position_at(lines1: Seq<Seq<char>>, lines2: Seq<Seq<char>>, k: int) -> PositionModel {
    PositionModel {
        line_index: k as nat,
        char_offset: first_mismatch_spec(line_at(lines1, k), line_at(lines2, k)),
        file1_byte_offset: line_start(lines1, k),
        file2_byte_offset: line_start(lines2, k),
    }
}

/// The position of the first line pair below index `i` whose lines differ,
/// if there is one.
pub open spec fn first_diff_before(
    lines1: Seq<Seq<char>>,
    lines2: Seq<Seq<char>>,
    i: int,
) -> Option<PositionModel>
    decreases i,
{
    if i <= 0 {
        None
    } else {
        match first_diff_before(lines1, lines2, i - 1) {
            Some(found) => Some(found),
            None => if line_at(lines1, i - 1) != line_at(lines2, i - 1) {
                Some(position_at(lines1, lines2, i - 1))
            } else {
                None
            },
        }
    }
}

/// The offsets of the first `count` lines of a file.
pub open spec fn line_starts(lines: Seq<Seq<char>>, count: nat) -> Seq<nat> {
    Seq::new(count, |j: int| line_start(lines, j))
}

/// The state of a pass over two files after `i` line pairs.
pub open spec fn state_after(
    lines1: Seq<Seq<char>>,
    lines2: Seq<Seq<char>>,
    extra_lines: nat,
    i: int,
) -> IndexModel {
    let shorter = shorter_len(lines1, lines2);
    IndexModel {
        first_diff: first_diff_before(lines1, lines2, i),
        file1_offsets: line_starts(
            lines1,
            if i <= lines1.len() {
                i as nat
            } else {
                lines1.len()
            },
        ),
        file2_offsets: line_starts(
            lines2,
            if i <= lines2.len() {
                i as nat
            } else {
                lines2.len()
            },
        ),
        file1_offset: line_start(lines1, i),
        file2_offset: line_start(lines2, i),
        line_index: i as nat,
        extra_lines: if i <= shorter {
            extra_lines
        } else {
            (extra_lines - (i - shorter)) as nat
        },
        comparison: if i <= shorter {
            LengthComparison::Equal
        } else {
            length_order(lines1, lines2)
        },
    }
}

/// The state in which a pass over two files ends.
pub open spec fn final_state(
    lines1: Seq<Seq<char>>,
    lines2: Seq<Seq<char>>,
    extra_lines: nat,
) -> IndexModel {
    let consumed = pairs_consumed(lines1, lines2, extra_lines);
    let last = state_after(lines1, lines2, extra_lines, consumed as int);
    IndexModel {
        first_diff: last.first_diff,
        file1_offsets: last.file1_offsets,
        file2_offsets: last.file2_offsets,
        file1_offset: last.file1_offset,
        file2_offset: last.file2_offset,
        line_index: last.line_index,
        extra_lines: last.extra_lines,
        comparison: length_order(lines1, lines2),
    }
}

proof fn lemma_scan_reaches(
    lines1: Seq<Seq<char>>,
    lines2: Seq<Seq<char>>,
    extra_lines: nat,
    i: int,
)
    requires
        valid_file(lines1),
        valid_file(lines2),
        0 <= i <= pairs_consumed(lines1, lines2, extra_lines),
    ensures
        scan_from(state_after(lines1, lines2, extra_lines, i), lines1, lines2, i) == final_state(
            lines1,
            lines2,
            extra_lines,
        ),
    decreases pairs_consumed(lines1, lines2, extra_lines) - i,
{
    let consumed = pairs_consumed(lines1, lines2, extra_lines);
    let shorter = shorter_len(lines1, lines2);
    let before = state_after(lines1, lines2, extra_lines, i);
    let line1 = line_at(lines1, i);
    let line2 = line_at(lines2, i);
    let after = step_model(before, line1, line2);
    if i < lines1.len() {
        assert(lines1[i].len() > 0);
    }
    if i < lines2.len() {
        assert(lines2[i].len() > 0);
    }
    lemma_line_start_step(lines1, i);
    lemma_line_start_step(lines2, i);
    if i < consumed {
        assert(step_continues(before, line1, line2));
        let next = state_after(lines1, lines2, extra_lines, i + 1);
        assert(after.file1_offsets =~= next.file1_offsets);
        assert(after.file2_offsets =~= next.file2_offsets);
        assert(after.first_diff == next.first_diff);
        assert(after.comparison == next.comparison);
        assert(after == next);
        lemma_scan_reaches(lines1, lines2, extra_lines, i + 1);
    } else {
        assert(!(0 <= i < longer_len(lines1, lines2) && step_continues(before, line1, line2)));
        assert(after == final_state(lines1, lines2, extra_lines));
    }
}

/// A pass over two files consumes line pairs up to the end of the longer
/// file, but at most the extra lines past the end of the shorter one. It
/// records the start of every line consumed, the first pair of lines that
/// differ among those consumed, and which file has more lines.
pub proof fn lemma_index_of_files(
    lines1: Seq<Seq<char>>,
    lines2: Seq<Seq<char>>,
    extra_lines: nat,
)
    requires
        valid_file(lines1),
        valid_file(lines2),
    ensures
        index_spec(lines1, lines2, extra_lines) == final_state(lines1, lines2, extra_lines),
        index_spec(lines1, lines2, extra_lines).file1_offsets == line_starts(
            lines1,
            lines_indexed(lines1.len(), lines2.len(), extra_lines),
        ),
        index_spec(lines1, lines2, extra_lines).file2_offsets == line_starts(
            lines2,
            lines_indexed(lines2.len(), lines1.len(), extra_lines),
        ),
        index_spec(lines1, lines2, extra_lines).first_diff == first_diff_before(
            lines1,
            lines2,
            pairs_consumed(lines1, lines2, extra_lines) as int,
        ),
        index_spec(lines1, lines2, extra_lines).comparison == length_order(lines1, lines2),
{
    let start = state_after(lines1, lines2, extra_lines, 0);
    assert(start.file1_offsets =~= Seq::<nat>::empty());
    assert(start.file2_offsets =~= Seq::<nat>::empty());
    assert(start == initial_model(extra_lines));
    lemma_scan_reaches(lines1, lines2, extra_lines, 0);
}

/// Where no line pair below `i` differs, no difference is found below `i`.
pub proof fn lemma_no_diff_before(lines1: Seq<Seq<char>>, lines2: Seq<Seq<char>>, i: int)
    requires
        forall|j: int| 0 <= j < i ==> line_at(lines1, j) == line_at(lines2, j),
    ensures
        first_diff_before(lines1, lines2, i) is None,
    decreases i,
{
    if i > 0 {
        lemma_no_diff_before(lines1, lines2, i - 1);
        assert(line_at(lines1, i - 1) == line_at(lines2, i - 1));
    }
}

/// Where the line pairs below `k` are equal and the pair at `k` differs, the
/// difference found below any `i` beyond `k` is the one at `k`.
pub proof fn lemma_first_diff_at(lines1: Seq<Seq<char>>, lines2: Seq<Seq<char>>, k: int, i: int)
    requires
        0 <= k < i,
        forall|j: int| 0 <= j < k ==> line_at(lines1, j) == line_at(lines2, j),
        line_at(lines1, k) != line_at(lines2, k),
    ensures
        first_diff_before(lines1, lines2, i) == Some(position_at(lines1, lines2, k)),
    decreases i,
{
    if i == k + 1 {
        lemma_no_diff_before(lines1, lines2, k);
    } else {
        lemma_first_diff_at(lines1, lines2, k, i - 1);
    }
}

/// Where two lines hold the same characters below index `c` and do not both
/// hold the same character at `c`, their first mismatch is at `c`.
pub proof fn lemma_mismatch_at(left: Seq<char>, right: Seq<char>, c: int)
    requires
        0 <= c,
        forall|j: int| 0 <= j < c ==> same_at(left, right, j),
        !same_at(left, right, c),
    ensures
        first_mismatch_spec(left, right) == c,
{
    lemma_mismatch_from(left, right, c, 0);
}

proof fn lemma_mismatch_from(left: Seq<char>, right: Seq<char>, c: int, i: int)
    requires
        0 <= i <= c,
        forall|j: int| 0 <= j < c ==> same_at(left, right, j),
        !same_at(left, right, c),
    ensures
        mismatch_from(left, right, i) == c,
    decreases c - i,
{
    if i < c {
        assert(same_at(left, right, i));
        lemma_mismatch_from(left, right, c, i + 1);
    }
}

/// Two identical files of `N` lines have no first difference, and the pass
/// indexes all `N` lines of each.
pub proof fn lemma_identical_files(lines: Seq<Seq<char>>, extra_lines: nat)
    requires
        valid_file(lines),
    ensures
        index_spec(lines, lines, extra_lines).first_diff is None,
        index_spec(lines, lines, extra_lines).file1_offsets.len() == lines.len(),
        index_spec(lines, lines, extra_lines).file2_offsets.len() == lines.len(),
        index_spec(lines, lines, extra_lines).comparison == LengthComparison::Equal,
{
    lemma_index_of_files(lines, lines, extra_lines);
    lemma_no_diff_before(lines, lines, pairs_consumed(lines, lines, extra_lines) as int);
}

/// Where two files agree on the lines before line `line` and differ in that
/// line, the first difference is recorded at that line, with the byte
/// offsets at which the line starts in each file.
pub proof fn lemma_first_differing_line(
    lines1: Seq<Seq<char>>,
    lines2: Seq<Seq<char>>,
    extra_lines: nat,
    line: int,
)
    requires
        valid_file(lines1),
        valid_file(lines2),
        0 <= line < lines1.len(),
        line < lines2.len(),
        forall|j: int| 0 <= j < line ==> lines1[j] == lines2[j],
        lines1[line] != lines2[line],
    ensures
        index_spec(lines1, lines2, extra_lines).first_diff == Some(
            position_at(lines1, lines2, line),
        ),
{
    lemma_index_of_files(lines1, lines2, extra_lines);
    lemma_first_diff_at(
        lines1,
        lines2,
        line,
        pairs_consumed(lines1, lines2, extra_lines) as int,
    );
}

/// Where two files agree on the lines before line `line`, and that line
/// holds the same characters in both up to position `position` and another
/// character there, the first difference is recorded at that line and that
/// position.
pub proof fn lemma_differing_character_is_found(
    lines1: Seq<Seq<char>>,
    lines2: Seq<Seq<char>>,
    extra_lines: nat,
    line: int,
    position: int,
)
    requires
        valid_file(lines1),
        valid_file(lines2),
        0 <= line < lines1.len(),
        line < lines2.len(),
        forall|j: int| 0 <= j < line ==> lines1[j] == lines2[j],
        0 <= position < lines1[line].len(),
        position < lines2[line].len(),
        forall|j: int| 0 <= j < position ==> lines1[line][j] == lines2[line][j],
        lines1[line][position] != lines2[line][position],
    ensures
        index_spec(lines1, lines2, extra_lines).first_diff is Some,
        index_spec(lines1, lines2, extra_lines).first_diff->0.line_index == line,
        index_spec(lines1, lines2, extra_lines).first_diff->0.char_offset == position,
{
    lemma_first_differing_line(lines1, lines2, extra_lines, line);
    lemma_mismatch_at(lines1[line], lines2[line], position);
}

/// Where the first file is the second one cut off in the middle of line
/// `line`, the first difference is recorded at that line, at the length of
/// the line that was cut.
pub proof fn lemma_truncated_line_is_found(
    lines1: Seq<Seq<char>>,
    lines2: Seq<Seq<char>>,
    extra_lines: nat,
    line: int,
)
    requires
        valid_file(lines1),
        valid_file(lines2),
        0 <= line < lines2.len(),
        lines1.len() == line + 1,
        forall|j: int| 0 <= j < line ==> lines1[j] == lines2[j],
        lines1[line].len() < lines2[line].len(),
        forall|j: int| 0 <= j < lines1[line].len() ==> lines1[line][j] == lines2[line][j],
    ensures
        index_spec(lines1, lines2, extra_lines).first_diff is Some,
        index_spec(lines1, lines2, extra_lines).first_diff->0.line_index == line,
        index_spec(lines1, lines2, extra_lines).first_diff->0.char_offset == lines1[line].len(),
{
    lemma_first_differing_line(lines1, lines2, extra_lines, line);
    lemma_mismatch_at(lines1[line], lines2[line], lines1[line].len() as int);
}

/// Whether offsets never decrease and none lies beyond `end`.
pub open spec fn offsets_ordered(offsets: Seq<nat>, end: nat) -> bool {
    &&& forall|i: int, j: int| 0 <= i <= j < offsets.len() ==> offsets[i] <= offsets[j]
    &&& forall|i: int| 0 <= i < offsets.len() ==> offsets[i] <= end
}

/// Whether the offsets recorded for each file never decrease and none lies
/// beyond the offset that the file has been read up to.
pub open spec fn index_ordered(model: IndexModel) -> bool {
    &&& offsets_ordered(model.file1_offsets, model.file1_offset)
    &&& offsets_ordered(model.file2_offsets, model.file2_offset)
}

/// Every line pair keeps the offsets ordered, whatever the lines are.
pub proof fn lemma_step_keeps_order(model: IndexModel, line1: Seq<char>, line2: Seq<char>)
    requires
        index_ordered(model),
    ensures
        index_ordered(step_model(model, line1, line2)),
{
}

proof fn lemma_scan_keeps_order(
    model: IndexModel,
    lines1: Seq<Seq<char>>,
    lines2: Seq<Seq<char>>,
    i: int,
)
    requires
        index_ordered(model),
    ensures
        index_ordered(scan_from(model, lines1, lines2, i)),
    decreases longer_len(lines1, lines2) - i,
{
    let line1 = line_at(lines1, i);
    let line2 = line_at(lines2, i);
    lemma_step_keeps_order(model, line1, line2);
    if 0 <= i < longer_len(lines1, lines2) && step_continues(model, line1, line2) {
        lemma_scan_keeps_order(step_model(model, line1, line2), lines1, lines2, i + 1);
    }
}

/// The offsets that a pass records for a file never decrease.
pub proof fn lemma_index_is_ordered(
    lines1: Seq<Seq<char>>,
    lines2: Seq<Seq<char>>,
    extra_lines: nat,
)
    ensures
        index_ordered(index_spec(lines1, lines2, extra_lines)),
{
    lemma_scan_keeps_order(initial_model(extra_lines), lines1, lines2, 0);
}

} // verus!
