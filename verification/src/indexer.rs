//! Line indexing: one pass over two files in lockstep that records where
//! every line starts and where the files first differ.
//!
//! The files advance together by iteration count, one line of each per step.
//! A line is given as it was read, terminator included; an empty line stands
//! for a file that has ended.

use crate::pairing::{chars_of, longer_len, zip_longest, Paired};
use crate::text::{byte_len, text_byte_len};
use vstd::prelude::*;

verus! {

/// Number of lines that are indexed past the end of the shorter file unless
/// another budget is asked for.
pub const DEFAULT_EXTRA_LINES: usize = 20;

/// The first point at which two files differ.
#[derive(Clone, Copy, Debug, PartialEq, Eq, Structural)]
pub struct DiffPosition {
    /// Index of the line pair, counted from zero.
    pub line_index: usize,
    /// Index of the first character of that line pair that differs, or the
    /// length of the shorter line where one line starts with the other.
    pub char_offset: usize,
    /// Byte offset at which that line starts in the first file.
    pub file1_byte_offset: usize,
    /// Byte offset at which that line starts in the second file.
    pub file2_byte_offset: usize,
}

/// Which file ran on after the other had ended.
#[derive(Clone, Copy, Debug, PartialEq, Eq, Structural)]
pub enum LengthComparison {
    Equal,
    File1Longer,
    File2Longer,
}

/// The sentence that reports a length comparison.
pub open spec fn summary_spec(comparison: LengthComparison) -> Seq<char> {
    match comparison {
        LengthComparison::Equal => "Both files are the same length"@,
        LengthComparison::File1Longer => "File 1 is longer"@,
        LengthComparison::File2Longer => "File 2 is longer"@,
    }
}

impl LengthComparison {
    /// The sentence that reports the comparison.
    pub fn summary(&self) -> (sentence: &'static str)
        ensures
            sentence@ == summary_spec(*self),
    {
        match self {
            LengthComparison::Equal => "Both files are the same length",
            LengthComparison::File1Longer => "File 1 is longer",
            LengthComparison::File2Longer => "File 2 is longer",
        }
    }
}

/// The mathematical value of a [`DiffPosition`].
pub struct PositionModel {
    pub line_index: nat,
    pub char_offset: nat,
    pub file1_byte_offset: nat,
    pub file2_byte_offset: nat,
}

impl View for DiffPosition {
    type V = PositionModel;

    open spec fn view(&self) -> PositionModel {
        PositionModel {
            line_index: self.line_index as nat,
            char_offset: self.char_offset as nat,
            file1_byte_offset: self.file1_byte_offset as nat,
            file2_byte_offset: self.file2_byte_offset as nat,
        }
    }
}

/// The value of an optional position.
pub open spec fn position_view(position: Option<DiffPosition>) -> Option<PositionModel> {
    match position {
        Some(found) => Some(found@),
        None => None,
    }
}

/// The values of a sequence of offsets.
pub open spec fn offsets_view(offsets: Seq<usize>) -> Seq<nat> {
    offsets.map_values(|offset: usize| offset as nat)
}

/// The state of an indexing pass.
pub struct IndexModel {
    /// The first difference seen so far.
    pub first_diff: Option<PositionModel>,
    /// The byte offsets of the lines of the first file seen so far.
    pub file1_offsets: Seq<nat>,
    /// The byte offsets of the lines of the second file seen so far.
    pub file2_offsets: Seq<nat>,
    /// The byte offset that the first file has been read up to.
    pub file1_offset: nat,
    /// The byte offset that the second file has been read up to.
    pub file2_offset: nat,
    /// The number of line pairs consumed.
    pub line_index: nat,
    /// The number of lines that may still be consumed after one file ended.
    pub extra_lines: nat,
    /// Which file ran on after the other had ended.
    pub comparison: LengthComparison,
}

/// The state before the first line pair.
pub open spec fn initial_model(extra_lines: nat) -> IndexModel {
    IndexModel {
        first_diff: None,
        file1_offsets: Seq::empty(),
        file2_offsets: Seq::empty(),
        file1_offset: 0,
        file2_offset: 0,
        line_index: 0,
        extra_lines,
        comparison: LengthComparison::Equal,
    }
}

/// Whether both lines reach index `i` and hold the same character there.
pub open spec fn same_at(left: Seq<char>, right: Seq<char>, i: int) -> bool {
    0 <= i < left.len() && i < right.len() && left[i] == right[i]
}

/// The first index from `i` on at which `left` and `right` do not hold the
/// same character: where the characters differ or where one of them ends.
pub open spec fn mismatch_from(left: Seq<char>, right: Seq<char>, i: int) -> int
    decreases left.len() - i,
{
    if same_at(left, right, i) {
        mismatch_from(left, right, i + 1)
    } else {
        i
    }
}

/// The index of the first character at which two lines differ, or the length
/// of the shorter one where one line starts with the other.
pub open spec fn first_mismatch_spec(left: Seq<char>, right: Seq<char>) -> nat {
    mismatch_from(left, right, 0) as nat
}

/// Which file runs on where exactly one of two lines is empty; `before`
/// where none or both are.
pub open spec fn compare_ends(
    before: LengthComparison,
    line1: Seq<char>,
    line2: Seq<char>,
) -> LengthComparison {
    if line1.len() == 0 && line2.len() > 0 {
        LengthComparison::File2Longer
    } else if line2.len() == 0 && line1.len() > 0 {
        LengthComparison::File1Longer
    } else {
        before
    }
}

/// Whether the pass goes on after the pair `line1`, `line2`: not where both
/// files have ended, nor where one has and no extra line is left.
pub open spec fn step_continues(model: IndexModel, line1: Seq<char>, line2: Seq<char>) -> bool {
    let ended1 = line1.len() == 0;
    let ended2 = line2.len() == 0;
    !(ended1 && ended2) && !((ended1 || ended2) && model.extra_lines == 0)
}

/// The state after the pair `line1`, `line2`.
///
/// Where the pass stops on this pair, only the length comparison changes.
/// Otherwise an extra line is used up if one file has ended, the first
/// difference is recorded if the lines differ and none was recorded before,
/// the offset of each line that is not empty is recorded, and both offsets
/// advance by the bytes of their line.
pub open spec fn step_model(model: IndexModel, line1: Seq<char>, line2: Seq<char>) -> IndexModel {
    let ended1 = line1.len() == 0;
    let ended2 = line2.len() == 0;
    if !step_continues(model, line1, line2) {
        IndexModel {
            first_diff: model.first_diff,
            file1_offsets: model.file1_offsets,
            file2_offsets: model.file2_offsets,
            file1_offset: model.file1_offset,
            file2_offset: model.file2_offset,
            line_index: model.line_index,
            extra_lines: model.extra_lines,
            comparison: compare_ends(model.comparison, line1, line2),
        }
    } else {
        IndexModel {
            first_diff: if model.first_diff is None && line1 != line2 {
                Some(
                    PositionModel {
                        line_index: model.line_index,
                        char_offset: first_mismatch_spec(line1, line2),
                        file1_byte_offset: model.file1_offset,
                        file2_byte_offset: model.file2_offset,
                    },
                )
            } else {
                model.first_diff
            },
            file1_offsets: if ended1 {
                model.file1_offsets
            } else {
                model.file1_offsets.push(model.file1_offset)
            },
            file2_offsets: if ended2 {
                model.file2_offsets
            } else {
                model.file2_offsets.push(model.file2_offset)
            },
            file1_offset: model.file1_offset + byte_len(line1),
            file2_offset: model.file2_offset + byte_len(line2),
            line_index: model.line_index + 1,
            extra_lines: if ended1 || ended2 {
                (model.extra_lines - 1) as nat
            } else {
                model.extra_lines
            },
            comparison: compare_ends(model.comparison, line1, line2),
        }
    }
}

/// Whether the counters of `model` stay within `usize` over the pair
/// `line1`, `line2`.
pub open spec fn step_fits(model: IndexModel, line1: Seq<char>, line2: Seq<char>) -> bool {
    &&& model.file1_offset + byte_len(line1) <= usize::MAX
    &&& model.file2_offset + byte_len(line2) <= usize::MAX
    &&& model.line_index < usize::MAX
}

/// Whether the pair `line1`, `line2` can be taken in state `model`: the
/// counters stay within `usize` unless the pass stops on this pair, which
/// leaves them as they are.
pub open spec fn step_safe(model: IndexModel, line1: Seq<char>, line2: Seq<char>) -> bool {
    step_continues(model, line1, line2) ==> step_fits(model, line1, line2)
}

/// Finds where two lines first differ: the index of the first character that
/// is not the same in both, or the length of the shorter line where one line
/// starts with the other. Nothing where the lines are equal.
pub fn first_mismatch(line1: &str, line2: &str) -> (offset: Option<usize>)
    ensures
        offset is None <==> line1@ == line2@,
        offset is Some ==> offset->0 == first_mismatch_spec(line1@, line2@),
{
    let chars1 = chars_of(line1);
    let chars2 = chars_of(line2);
    let pairs = zip_longest(&chars1, &chars2);
    let mut index: usize = 0;
    while index < pairs.len()
        invariant
            chars1@ == line1@,
            chars2@ == line2@,
            pairs@.len() == longer_len(line1@, line2@),
            forall|k: int|
                0 <= k < pairs@.len() ==> pairs@[k] == crate::pairing::paired_at(
                    chars1@,
                    chars2@,
                    k,
                ),
            index <= pairs@.len(),
            forall|k: int| 0 <= k < index ==> same_at(line1@, line2@, k),
            mismatch_from(line1@, line2@, 0) == mismatch_from(line1@, line2@, index as int),
        decreases pairs@.len() - index,
    {
        match pairs[index] {
            Paired::Both(c1, c2) => {
                if *c1 != *c2 {
                    return Some(index);
                }
            },
            Paired::Left(_) => {
                return Some(index);
            },
            Paired::Right(_) => {
                return Some(index);
            },
        }
        index += 1;
    }
    proof {
        if index > 0 {
            assert(same_at(line1@, line2@, index - 1));
        }
        assert forall|k: int| 0 <= k < line1@.len() implies line1@[k] == line2@[k] by {
            assert(same_at(line1@, line2@, k));
        }
        assert(line1@ =~= line2@);
    }
    None
}

/// The state of an indexing pass over two files.
pub struct LineIndexer {
    first_diff: Option<DiffPosition>,
    file1_line_positions: Vec<usize>,
    file2_line_positions: Vec<usize>,
    file1_offset: usize,
    file2_offset: usize,
    line_index: usize,
    extra_line_count: usize,
    comparison: LengthComparison,
}

/// What an indexing pass has found.
#[derive(Clone, Debug, PartialEq, Eq)]
pub struct LineIndex {
    /// The first point at which the files differ, if they do.
    pub first_diff: Option<DiffPosition>,
    /// The byte offset of each indexed line of the first file.
    pub file1_line_positions: Vec<usize>,
    /// The byte offset of each indexed line of the second file.
    pub file2_line_positions: Vec<usize>,
    /// Which file ran on after the other had ended.
    pub comparison: LengthComparison,
}

impl LineIndex {
    /// Whether the index holds what the pass `model` has found.
    pub open spec fn holds(&self, model: IndexModel) -> bool {
        &&& position_view(self.first_diff) == model.first_diff
        &&& offsets_view(self.file1_line_positions@) == model.file1_offsets
        &&& offsets_view(self.file2_line_positions@) == model.file2_offsets
        &&& self.comparison == model.comparison
    }
}

impl View for LineIndexer {
    type V = IndexModel;

    closed spec fn view(&self) -> IndexModel {
        IndexModel {
            first_diff: position_view(self.first_diff),
            file1_offsets: offsets_view(self.file1_line_positions@),
            file2_offsets: offsets_view(self.file2_line_positions@),
            file1_offset: self.file1_offset as nat,
            file2_offset: self.file2_offset as nat,
            line_index: self.line_index as nat,
            extra_lines: self.extra_line_count as nat,
            comparison: self.comparison,
        }
    }
}

impl LineIndexer {
    /// Starts a pass that indexes up to `extra_lines` lines past the end of
    /// the shorter file.
    pub fn new(extra_lines: usize) -> (indexer: LineIndexer)
        ensures
            indexer@ == initial_model(extra_lines as nat),
    {
        let indexer = LineIndexer {
            first_diff: None,
            file1_line_positions: Vec::new(),
            file2_line_positions: Vec::new(),
            file1_offset: 0,
            file2_offset: 0,
            line_index: 0,
            extra_line_count: extra_lines,
            comparison: LengthComparison::Equal,
        };
        assert(offsets_view(indexer.file1_line_positions@) =~= Seq::<nat>::empty());
        assert(offsets_view(indexer.file2_line_positions@) =~= Seq::<nat>::empty());
        indexer
    }

    /// Whether the pair `line1`, `line2` can be taken: the counters stay
    /// within `usize`, or the pass stops on this pair.
    pub fn can_step(&self, line1: &str, line2: &str) -> (safe: bool)
        ensures
            safe == step_safe(self@, line1@, line2@),
    {
        let len1 = text_byte_len(line1);
        let len2 = text_byte_len(line2);
        let ended1 = len1 == 0;
        let ended2 = len2 == 0;
        proof {
            crate::text::lemma_empty_has_no_bytes(line1@);
            crate::text::lemma_empty_has_no_bytes(line2@);
        }
        let stops = (ended1 && ended2) || ((ended1 || ended2) && self.extra_line_count == 0);
        stops || (len1 <= usize::MAX - self.file1_offset && len2 <= usize::MAX
            - self.file2_offset && self.line_index < usize::MAX)
    }

    /// Takes the next line of each file, empty for a file that has ended,
    /// and says whether the pass goes on.
    pub fn step(&mut self, line1: &str, line2: &str) -> (more: bool)
        requires
            step_safe(old(self)@, line1@, line2@),
        ensures
            final(self)@ == step_model(old(self)@, line1@, line2@),
            more == step_continues(old(self)@, line1@, line2@),
    {
        let len1 = text_byte_len(line1);
        let len2 = text_byte_len(line2);
        let ended1 = len1 == 0;
        let ended2 = len2 == 0;
        proof {
            crate::text::lemma_empty_has_no_bytes(line1@);
            crate::text::lemma_empty_has_no_bytes(line2@);
        }
        if ended1 && !ended2 {
            self.comparison = LengthComparison::File2Longer;
        } else if ended2 && !ended1 {
            self.comparison = LengthComparison::File1Longer;
        }
        if ended1 || ended2 {
            if ended1 && ended2 {
                return false;
            }
            if self.extra_line_count > 0 {
                self.extra_line_count -= 1;
            } else {
                return false;
            }
        }
        if self.first_diff.is_none() {
            if let Some(char_offset) = first_mismatch(line1, line2) {
                self.first_diff = Some(
                    DiffPosition {
                        line_index: self.line_index,
                        char_offset,
                        file1_byte_offset: self.file1_offset,
                        file2_byte_offset: self.file2_offset,
                    },
                );
            }
        }
        if !ended1 {
            self.file1_line_positions.push(self.file1_offset);
            assert(offsets_view(self.file1_line_positions@) =~= offsets_view(
                old(self).file1_line_positions@,
            ).push(self.file1_offset as nat));
        }
        if !ended2 {
            self.file2_line_positions.push(self.file2_offset);
            assert(offsets_view(self.file2_line_positions@) =~= offsets_view(
                old(self).file2_line_positions@,
            ).push(self.file2_offset as nat));
        }
        self.file1_offset += len1;
        self.file2_offset += len2;
        self.line_index += 1;
        true
    }

    /// Ends the pass and hands out what it has found.
    pub fn finish(self) -> (index: LineIndex)
        ensures
            index.holds(self@),
    {
        LineIndex {
            first_diff: self.first_diff,
            file1_line_positions: self.file1_line_positions,
            file2_line_positions: self.file2_line_positions,
            comparison: self.comparison,
        }
    }
}

/// The line that a file gives at index `i`: its line there, or the empty
/// line once the file has ended.
pub open spec fn line_at(lines: Seq<Seq<char>>, i: int) -> Seq<char> {
    if 0 <= i < lines.len() {
        lines[i]
    } else {
        Seq::empty()
    }
}

/// The state in which a pass ends that is in state `model` before the line
/// pair at index `i`.
pub open spec fn scan_from(
    model: IndexModel,
    lines1: Seq<Seq<char>>,
    lines2: Seq<Seq<char>>,
    i: int,
) -> IndexModel
    decreases longer_len(lines1, lines2) - i,
{
    let line1 = line_at(lines1, i);
    let line2 = line_at(lines2, i);
    if 0 <= i < longer_len(lines1, lines2) && step_continues(model, line1, line2) {
        scan_from(step_model(model, line1, line2), lines1, lines2, i + 1)
    } else {
        step_model(model, line1, line2)
    }
}

/// The state in which a pass over two files ends, each file given by its
/// lines.
pub open spec fn index_spec(
    lines1: Seq<Seq<char>>,
    lines2: Seq<Seq<char>>,
    extra_lines: nat,
) -> IndexModel {
    scan_from(initial_model(extra_lines), lines1, lines2, 0)
}

/// The number of bytes in all of `lines`.
pub open spec fn total_bytes(lines: Seq<Seq<char>>) -> nat
    decreases lines.len(),
{
    if lines.len() == 0 {
        0
    } else {
        total_bytes(lines.drop_last()) + byte_len(lines.last())
    }
}

/// The byte offset at which line `i` of a file starts; past the last line,
/// the length of the file.
pub open spec fn line_start(lines: Seq<Seq<char>>, i: int) -> nat {
    if i <= 0 {
        0
    } else if i < lines.len() {
        total_bytes(lines.take(i))
    } else {
        total_bytes(lines)
    }
}

/// A line starts where the line before it ends, and no line starts beyond
/// the end of the file.
pub proof fn lemma_line_start_step(lines: Seq<Seq<char>>, i: int)
    requires
        0 <= i,
    ensures
        line_start(lines, i + 1) == line_start(lines, i) + byte_len(line_at(lines, i)),
        line_start(lines, i) <= total_bytes(lines),
    decreases lines.len() - i,
{
    assert(total_bytes(lines.take(0)) == 0) by {
        assert(lines.take(0) =~= Seq::<Seq<char>>::empty());
    }
    assert(lines.take(lines.len() as int) =~= lines);
    assert(byte_len(Seq::<char>::empty()) == 0);
    if i < lines.len() {
        assert(lines.take(i + 1).drop_last() =~= lines.take(i));
        assert(lines.take(i + 1).last() == lines[i]);
        assert(total_bytes(lines.take(i + 1)) == total_bytes(lines.take(i)) + byte_len(lines[i]));
        lemma_line_start_step(lines, i + 1);
    }
}

/// Whether every line pair of a pass that is in state `model` before the
/// pair at index `i` can be taken.
pub open spec fn scan_fits(
    model: IndexModel,
    lines1: Seq<Seq<char>>,
    lines2: Seq<Seq<char>>,
    i: int,
) -> bool
    decreases longer_len(lines1, lines2) - i,
{
    let line1 = line_at(lines1, i);
    let line2 = line_at(lines2, i);
    if 0 <= i < longer_len(lines1, lines2) {
        step_safe(model, line1, line2) && (step_continues(model, line1, line2) ==> scan_fits(
            step_model(model, line1, line2),
            lines1,
            lines2,
            i + 1,
        ))
    } else {
        true
    }
}

/// Whether the counters of a pass over two files stay within `usize`.
pub open spec fn index_fits(
    lines1: Seq<Seq<char>>,
    lines2: Seq<Seq<char>>,
    extra_lines: nat,
) -> bool {
    scan_fits(initial_model(extra_lines), lines1, lines2, 0)
}

proof fn lemma_scan_fits(
    model: IndexModel,
    lines1: Seq<Seq<char>>,
    lines2: Seq<Seq<char>>,
    i: int,
)
    requires
        0 <= i,
        longer_len(lines1, lines2) <= usize::MAX,
        total_bytes(lines1) <= usize::MAX,
        total_bytes(lines2) <= usize::MAX,
        model.line_index == i,
        model.file1_offset == line_start(lines1, i),
        model.file2_offset == line_start(lines2, i),
    ensures
        scan_fits(model, lines1, lines2, i),
    decreases longer_len(lines1, lines2) - i,
{
    if i < longer_len(lines1, lines2) {
        lemma_line_start_step(lines1, i);
        lemma_line_start_step(lines2, i);
        lemma_line_start_step(lines1, i + 1);
        lemma_line_start_step(lines2, i + 1);
        let line1 = line_at(lines1, i);
        let line2 = line_at(lines2, i);
        if step_continues(model, line1, line2) {
            lemma_scan_fits(step_model(model, line1, line2), lines1, lines2, i + 1);
        }
    }
}

/// The counters of a pass stay within `usize` where the length of each file
/// in bytes and the number of lines of the longer one do.
pub proof fn lemma_index_fits(lines1: Seq<Seq<char>>, lines2: Seq<Seq<char>>, extra_lines: nat)
    requires
        longer_len(lines1, lines2) <= usize::MAX,
        total_bytes(lines1) <= usize::MAX,
        total_bytes(lines2) <= usize::MAX,
    ensures
        index_fits(lines1, lines2, extra_lines),
{
    lemma_scan_fits(initial_model(extra_lines), lines1, lines2, 0);
}

/// Indexes two files that are given by their lines.
///
/// The lines are taken pair by pair, an empty line standing for a file that
/// has ended, until both files have ended or one has and `extra_lines` more
/// lines of the other have been indexed. There is no index where a byte
/// offset would not fit a `usize`.
pub fn index_lines(file1: &Vec<String>, file2: &Vec<String>, extra_lines: usize) -> (index: Option<
    LineIndex,
>)
    ensures
        index is Some <==> index_fits(
            file1.deep_view(),
            file2.deep_view(),
            extra_lines as nat,
        ),
        index is Some ==> index->0.holds(
            index_spec(file1.deep_view(), file2.deep_view(), extra_lines as nat),
        ),
{
    let ghost lines1 = file1.deep_view();
    let ghost lines2 = file2.deep_view();
    let count = if file1.len() >= file2.len() {
        file1.len()
    } else {
        file2.len()
    };
    let mut indexer = LineIndexer::new(extra_lines);
    let mut i: usize = 0;
    proof {
        reveal_strlit("");
    }
    while i < count
        invariant
            lines1 == file1.deep_view(),
            lines2 == file2.deep_view(),
            count == longer_len(lines1, lines2),
            i <= count,
            ""@.len() == 0,
            scan_from(indexer@, lines1, lines2, i as int) == index_spec(
                lines1,
                lines2,
                extra_lines as nat,
            ),
            scan_fits(indexer@, lines1, lines2, i as int) == index_fits(
                lines1,
                lines2,
                extra_lines as nat,
            ),
        decreases count - i,
    {
        let line1: &str = if i < file1.len() {
            file1[i].as_str()
        } else {
            ""
        };
        let line2: &str = if i < file2.len() {
            file2[i].as_str()
        } else {
            ""
        };
        proof {
            assert(line1@ =~= line_at(lines1, i as int));
            assert(line2@ =~= line_at(lines2, i as int));
        }
        if !indexer.can_step(line1, line2) {
            return None;
        }
        let more = indexer.step(line1, line2);
        if !more {
            return Some(indexer.finish());
        }
        i += 1;
    }
    proof {
        assert(line_at(lines1, i as int) =~= Seq::<char>::empty());
        assert(line_at(lines2, i as int) =~= Seq::<char>::empty());
        assert(step_model(indexer@, Seq::<char>::empty(), Seq::<char>::empty()) == indexer@);
    }
    Some(indexer.finish())
}

} // verus!
