//! The state of a comparison session: the line index of both files, the
//! diff table of the lines that are loaded, and the list lines built from it.

use crate::indexer::DiffPosition;
use crate::input::{
    command_spec, renumbered_from, selected_after, view_after, Command, Key, ViewState,
    JUMP_MARGIN, SCROLL_MARGIN,
};
use crate::line_diff::{diff_line_pairs, diff_line_pairs_spec, table_fits};
use crate::navigate::{is_next_diff, is_prev_diff};
use crate::render::{
    build_lines, build_spans, left_side, list_lines, right_side, Fragment, FragmentView,
};
use crate::section::{DiffSection, SectionView};
use crate::text::{byte_len, text_byte_len};
use crate::window::{window_end, window_first, window_offsets};
use vstd::prelude::*;

verus! {

/// The state of a comparison session.
pub struct State {
    first_diff: Option<DiffPosition>,
    file1_line_positions: Vec<usize>,
    file2_line_positions: Vec<usize>,
    line_diffs: Vec<Vec<DiffSection>>,
    /// Length in bytes of the longest line that is loaded.
    pub longest_line_length: usize,
    /// The line that is selected.
    pub selected_line: usize,
    file1_spans: Vec<Vec<Fragment>>,
    file2_spans: Vec<Vec<Fragment>>,
    /// The list lines of the first file.
    pub file1_list_lines: Vec<Vec<Fragment>>,
    /// The list lines of the second file.
    pub file2_list_lines: Vec<Vec<Fragment>>,
}

/// What a key has done.
#[derive(Clone, Copy, Debug, PartialEq, Eq)]
pub struct KeyOutcome {
    /// Whether the key asks to end the session.
    pub quit: bool,
    /// The line and offset of the difference that the key has jumped to.
    pub jump: Option<(usize, usize)>,
}

/// Whether `longest` is the length in bytes of the longest line of two
/// sequences of lines: no line is longer, and one line is that long unless
/// `longest` is zero.
pub open spec fn is_longest(lines1: Seq<Seq<char>>, lines2: Seq<Seq<char>>, longest: nat) -> bool {
    &&& forall|i: int| 0 <= i < lines1.len() ==> byte_len(#[trigger] lines1[i]) <= longest
    &&& forall|i: int| 0 <= i < lines2.len() ==> byte_len(#[trigger] lines2[i]) <= longest
    &&& (longest == 0 || (exists|i: int|
        0 <= i < lines1.len() && byte_len(#[trigger] lines1[i]) == longest) || (exists|i: int|
        0 <= i < lines2.len() && byte_len(#[trigger] lines2[i]) == longest))
}

/// The longest line of `lines` and `longest`, in bytes.
fn longest_of(lines: &Vec<String>, longest: usize) -> (length: usize)
    ensures
        length >= longest,
        forall|i: int|
            0 <= i < lines@.len() ==> byte_len(#[trigger] lines.deep_view()[i]) <= length,
        length == longest || (exists|i: int|
            0 <= i < lines@.len() && byte_len(#[trigger] lines.deep_view()[i]) == length),
{
    let mut longest_length = longest;
    let mut index: usize = 0;
    while index < lines.len()
        invariant
            index <= lines@.len(),
            longest_length >= longest,
            forall|i: int|
                0 <= i < index ==> byte_len(#[trigger] lines.deep_view()[i]) <= longest_length,
            longest_length == longest || (exists|i: int|
                0 <= i < lines@.len() && byte_len(#[trigger] lines.deep_view()[i])
                    == longest_length),
        decreases lines@.len() - index,
    {
        let length = text_byte_len(lines[index].as_str());
        assert(length == byte_len(lines.deep_view()[index as int]));
        if length > longest_length {
            longest_length = length;
        }
        index += 1;
    }
    longest_length
}

/// The length in bytes of the longest line among the lines of both files;
/// zero where there is no line.
pub fn longest_line_length(file1_lines: &Vec<String>, file2_lines: &Vec<String>) -> (longest:
    usize)
    ensures
        is_longest(file1_lines.deep_view(), file2_lines.deep_view(), longest as nat),
{
    let first = longest_of(file1_lines, 0);
    longest_of(file2_lines, first)
}

impl State {
    /// The diff table that is loaded.
    pub closed spec fn table(&self) -> Seq<Seq<SectionView>> {
        self.line_diffs.deep_view()
    }

    /// The first difference of the two files.
    pub closed spec fn first_diff_spec(&self) -> Option<DiffPosition> {
        self.first_diff
    }

    /// The byte offsets of the lines of the first file.
    pub closed spec fn positions1(&self) -> Seq<usize> {
        self.file1_line_positions@
    }

    /// The byte offsets of the lines of the second file.
    pub closed spec fn positions2(&self) -> Seq<usize> {
        self.file2_line_positions@
    }

    /// The length in bytes of the longest line that is loaded.
    pub closed spec fn longest(&self) -> usize {
        self.longest_line_length
    }

    /// The line that is selected.
    pub closed spec fn selected(&self) -> usize {
        self.selected_line
    }

    /// The list lines of the first file.
    pub closed spec fn list1(&self) -> Seq<Seq<FragmentView>> {
        self.file1_list_lines.deep_view()
    }

    /// The list lines of the second file.
    pub closed spec fn list2(&self) -> Seq<Seq<FragmentView>> {
        self.file2_list_lines.deep_view()
    }

    /// Whether the state is consistent: every line of the table has a width
    /// that a `usize` can hold, and the fragments of each side are those of
    /// the table.
    pub closed spec fn wf(&self) -> bool {
        &&& table_fits(self.line_diffs.deep_view())
        &&& self.file1_spans.deep_view() == left_side(self.line_diffs.deep_view())
        &&& self.file2_spans.deep_view() == right_side(self.line_diffs.deep_view())
    }

    /// A session over two indexed files, with no lines loaded yet.
    pub fn new(
        first_diff: Option<DiffPosition>,
        file1_line_positions: Vec<usize>,
        file2_line_positions: Vec<usize>,
    ) -> (state: State)
        ensures
            state.wf(),
            state.first_diff_spec() == first_diff,
            state.positions1() == file1_line_positions@,
            state.positions2() == file2_line_positions@,
            state.table() == Seq::<Seq<SectionView>>::empty(),
            state.longest() == 0,
            state.selected() == 0,
            state.list1() == Seq::<Seq<FragmentView>>::empty(),
            state.list2() == Seq::<Seq<FragmentView>>::empty(),
    {
        let state = State {
            first_diff,
            file1_line_positions,
            file2_line_positions,
            longest_line_length: 0,
            selected_line: 0,
            line_diffs: Vec::new(),
            file1_spans: Vec::new(),
            file2_spans: Vec::new(),
            file1_list_lines: Vec::new(),
            file2_list_lines: Vec::new(),
        };
        proof {
            assert(state.line_diffs.deep_view() =~= Seq::<Seq<SectionView>>::empty());
            assert(state.file1_spans.deep_view() =~= left_side(state.line_diffs.deep_view()));
            assert(state.file2_spans.deep_view() =~= right_side(state.line_diffs.deep_view()));
            assert(state.file1_list_lines.deep_view() =~= Seq::<Seq<FragmentView>>::empty());
            assert(state.file2_list_lines.deep_view() =~= Seq::<Seq<FragmentView>>::empty());
        }
        state
    }

    /// The first difference of the two files, if they differ.
    pub fn first_diff(&self) -> (first_diff: Option<DiffPosition>)
        ensures
            first_diff == self.first_diff_spec(),
    {
        self.first_diff
    }

    /// The diff table that is loaded.
    pub fn line_diffs(&self) -> (line_diffs: &Vec<Vec<DiffSection>>)
        ensures
            line_diffs.deep_view() == self.table(),
    {
        &self.line_diffs
    }

    /// The line around which the first window is loaded: the line of the
    /// first difference, or line zero where the files do not differ.
    pub fn start_line(&self) -> (line: usize)
        ensures
            line == match self.first_diff_spec() {
                Some(diff) => diff.line_index,
                None => 0,
            },
    {
        match self.first_diff {
            Some(diff) => diff.line_index,
            None => 0,
        }
    }

    /// Loads the lines of a window: selects the line of the first difference
    /// if there is one, diffs the lines pair by pair and builds the list
    /// lines of both sides, unscrolled and numbered from one.
    pub fn build_state(&mut self, file1_raw_lines: &Vec<String>, file2_raw_lines: &Vec<String>)
        ensures
            final(self).wf(),
            final(self).first_diff_spec() == old(self).first_diff_spec(),
            final(self).positions1() == old(self).positions1(),
            final(self).positions2() == old(self).positions2(),
            final(self).selected() == match old(self).first_diff_spec() {
                Some(diff) => diff.line_index,
                None => old(self).selected(),
            },
            is_longest(
                file1_raw_lines.deep_view(),
                file2_raw_lines.deep_view(),
                final(self).longest() as nat,
            ),
            final(self).table() == diff_line_pairs_spec(
                file1_raw_lines.deep_view(),
                file2_raw_lines.deep_view(),
            ),
            final(self).list1() == list_lines(
                left_side(final(self).table()),
                0,
                1,
            ),
            final(self).list2() == list_lines(
                right_side(final(self).table()),
                0,
                1,
            ),
    {
        if let Some(diff) = self.first_diff {
            self.selected_line = diff.line_index;
        }
        self.longest_line_length = longest_line_length(file1_raw_lines, file2_raw_lines);
        self.line_diffs = self.calculate_diffs(file1_raw_lines, file2_raw_lines);
        let (file1_spans, file2_spans) = build_spans(&self.line_diffs);
        self.file1_spans = file1_spans;
        self.file2_spans = file2_spans;
        self.build_lines(0, 1);
    }

    /// Builds the list lines of both sides anew, cut to what is visible from
    /// character `horizontal_offset` on and numbered from
    /// `start_line_number`.
    pub fn build_lines(&mut self, horizontal_offset: usize, start_line_number: usize)
        requires
            old(self).wf(),
        ensures
            final(self).wf(),
            final(self).first_diff_spec() == old(self).first_diff_spec(),
            final(self).positions1() == old(self).positions1(),
            final(self).positions2() == old(self).positions2(),
            final(self).table() == old(self).table(),
            final(self).longest() == old(self).longest(),
            final(self).selected() == old(self).selected(),
            final(self).list1() == list_lines(
                left_side(final(self).table()),
                horizontal_offset as nat,
                start_line_number as nat,
            ),
            final(self).list2() == list_lines(
                right_side(final(self).table()),
                horizontal_offset as nat,
                start_line_number as nat,
            ),
    {
        let (file1_list_lines, file2_list_lines) = build_lines(
            &self.file1_spans,
            &self.file2_spans,
            horizontal_offset,
            start_line_number,
        );
        self.file1_list_lines = file1_list_lines;
        self.file2_list_lines = file2_list_lines;
    }

    /// The byte offsets of the lines to read for a window of `line_count`
    /// lines around line `line_index`, for the first file and for the
    /// second. A file that has no line at an index of the window contributes
    /// nothing for it.
    pub fn get_lines_around_line(&self, line_index: usize, line_count: usize) -> (offsets: (
        Vec<usize>,
        Vec<usize>,
    ))
        ensures
            offsets.0@ == self.positions1().subrange(
                window_first(self.positions1().len() as int, line_index as int, line_count as int),
                window_end(self.positions1().len() as int, line_index as int, line_count as int),
            ),
            offsets.1@ == self.positions2().subrange(
                window_first(self.positions2().len() as int, line_index as int, line_count as int),
                window_end(self.positions2().len() as int, line_index as int, line_count as int),
            ),
    {
        (
            window_offsets(&self.file1_line_positions, line_index, line_count),
            window_offsets(&self.file2_line_positions, line_index, line_count),
        )
    }

    /// Diffs two sequences of lines pair by pair.
    pub fn calculate_diffs(&self, file1_lines: &Vec<String>, file2_lines: &Vec<String>) -> (table:
        Vec<Vec<DiffSection>>)
        ensures
            table.deep_view() == diff_line_pairs_spec(
                file1_lines.deep_view(),
                file2_lines.deep_view(),
            ),
            table_fits(table.deep_view()),
    {
        diff_line_pairs(file1_lines, file2_lines)
    }

    /// Finds the first changed section of the loaded table after the cursor
    /// `(match_line, match_offset)`.
    pub fn find_next_diff(&self, match_line: usize, match_offset: usize) -> (result: Option<
        (usize, usize),
    >)
        requires
            self.wf(),
        ensures
            is_next_diff(self.table(), match_line as int, match_offset as int, result),
    {
        crate::navigate::find_next_diff(&self.line_diffs, match_line, match_offset)
    }

    /// Finds the last changed section of the loaded table before the cursor
    /// `(match_line, match_offset)`.
    pub fn find_prev_diff(&self, match_line: usize, match_offset: usize) -> (result: Option<
        (usize, usize),
    >)
        requires
            self.wf(),
        ensures
            is_prev_diff(self.table(), match_line as int, match_offset as int, result),
    {
        crate::navigate::find_prev_diff(&self.line_diffs, match_line, match_offset)
    }

    /// Selects the line of a difference that was found and scrolls so that
    /// the difference is in view, the lines numbered from the index of the
    /// first loaded line.
    fn select_diff(&mut self, view: &mut ViewState, diff_line: usize, diff_offset: usize)
        requires
            old(self).wf(),
        ensures
            final(self).wf(),
            final(self).first_diff_spec() == old(self).first_diff_spec(),
            final(self).positions1() == old(self).positions1(),
            final(self).positions2() == old(self).positions2(),
            final(self).table() == old(self).table(),
            final(self).longest() == old(self).longest(),
            final(self).selected() == diff_line,
            *final(view) == (ViewState {
                horizontal_offset: crate::input::jump_offset(diff_offset),
                selected_diff_offset: diff_offset,
                ..*old(view)
            }),
            final(self).list1() == list_lines(
                left_side(final(self).table()),
                final(view).horizontal_offset as nat,
                old(view).first_line_index as nat,
            ),
            final(self).list2() == list_lines(
                right_side(final(self).table()),
                final(view).horizontal_offset as nat,
                old(view).first_line_index as nat,
            ),
    {
        self.selected_line = diff_line;
        view.horizontal_offset = if diff_offset > JUMP_MARGIN {
            diff_offset - JUMP_MARGIN
        } else {
            0
        };
        view.selected_diff_offset = diff_offset;
        self.build_lines(view.horizontal_offset, view.first_line_index);
    }

    /// Does what `key` asks for: scrolls, moves the selection, jumps to a
    /// difference, or says that the session is to end.
    ///
    /// A key that repeats the one before it is counted, and scrolls faster
    /// once keys have repeated often enough. The list lines are built anew
    /// where the key scrolls or jumps.
    pub fn handle_key(&mut self, view: &mut ViewState, key: Key) -> (outcome: KeyOutcome)
        requires
            old(self).wf(),
            old(view).first_line_index < usize::MAX,
        ensures
            final(self).wf(),
            final(self).first_diff_spec() == old(self).first_diff_spec(),
            final(self).positions1() == old(self).positions1(),
            final(self).positions2() == old(self).positions2(),
            final(self).table() == old(self).table(),
            final(self).longest() == old(self).longest(),
            outcome.quit == (command_spec(key) == Command::Quit),
            match command_spec(key) {
                Command::NextDiff => is_next_diff(
                    old(self).table(),
                    old(self).selected() as int,
                    old(view).selected_diff_offset as int,
                    outcome.jump,
                ),
                Command::PrevDiff => is_prev_diff(
                    old(self).table(),
                    old(self).selected() as int,
                    old(view).selected_diff_offset as int,
                    outcome.jump,
                ),
                _ => outcome.jump is None,
            },
            *final(view) == view_after(*old(view), key, old(self).longest(), outcome.jump),
            final(self).selected() == selected_after(
                old(self).selected(),
                key,
                old(self).list1().len(),
                old(self).list2().len(),
                outcome.jump,
            ),
            match renumbered_from(*old(view), key, old(self).longest(), outcome.jump) {
                Some(start) => {
                    &&& final(self).list1() == list_lines(
                        left_side(final(self).table()),
                        final(view).horizontal_offset as nat,
                        start,
                    )
                    &&& final(self).list2() == list_lines(
                        right_side(final(self).table()),
                        final(view).horizontal_offset as nat,
                        start,
                    )
                },
                None => {
                    &&& final(self).list1() == old(self).list1()
                    &&& final(self).list2() == old(self).list2()
                },
            },
    {
        let horizontal_step_size = view.count_key(key);
        let min_line_length = if self.longest_line_length > SCROLL_MARGIN {
            self.longest_line_length - SCROLL_MARGIN
        } else {
            0
        };
        let mut jump: Option<(usize, usize)> = None;
        match key.command() {
            Command::ScrollRight => {
                if horizontal_step_size < min_line_length && view.horizontal_offset
                    < min_line_length - horizontal_step_size {
                    view.horizontal_offset += horizontal_step_size;
                    self.build_lines(view.horizontal_offset, view.first_line_index + 1);
                }
            },
            Command::ScrollLeft => {
                if view.horizontal_offset >= horizontal_step_size {
                    view.horizontal_offset -= horizontal_step_size;
                } else {
                    view.horizontal_offset = 0;
                }
                self.build_lines(view.horizontal_offset, view.first_line_index + 1);
            },
            Command::LineDown => {
                if self.selected_line < self.file1_list_lines.len() || self.selected_line
                    < self.file2_list_lines.len() {
                    self.selected_line += 1;
                }
            },
            Command::LineUp => {
                if self.selected_line > 0 {
                    self.selected_line -= 1;
                }
            },
            Command::PrevDiff => {
                jump = self.find_prev_diff(self.selected_line, view.selected_diff_offset);
                if let Some((prev_diff_line, prev_diff_offset)) = jump {
                    self.select_diff(view, prev_diff_line, prev_diff_offset);
                }
            },
            Command::NextDiff => {
                jump = self.find_next_diff(self.selected_line, view.selected_diff_offset);
                if let Some((next_diff_line, next_diff_offset)) = jump {
                    self.select_diff(view, next_diff_line, next_diff_offset);
                }
            },
            Command::EndOfLine => {
                view.horizontal_offset = min_line_length;
                self.build_lines(view.horizontal_offset, view.first_line_index + 1);
            },
            Command::StartOfLine => {
                view.horizontal_offset = 0;
                self.build_lines(view.horizontal_offset, view.first_line_index + 1);
            },
            Command::Quit => {
                return KeyOutcome { quit: true, jump: None };
            },
            Command::Nothing => {},
        }
        view.last_key = Some(key);
        KeyOutcome { quit: false, jump }
    }
}

} // verus!
