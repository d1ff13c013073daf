//! What each side of a diff shows: styled fragments of text, cut to the
//! part that is visible from a horizontal offset on.

use crate::label::{label_spec, line_number_label};
use crate::line_diff::{
    diff_lines_spec, left_concat, lemma_diff_reconstructs_lines, right_concat,
};
use crate::section::{DiffSection, SectionView};
use tui::text::Span;
use vstd::prelude::*;

verus! {

/// How a fragment of text is to be shown.
#[derive(Clone, Copy, Debug, PartialEq, Eq, Structural)]
pub enum FragmentStyle {
    /// Text that is the same on both sides.
    Plain,
    /// Text that only the right side has.
    Added,
    /// Text that differs between the sides.
    Modified,
    /// Text that only the left side has.
    Removed,
    /// Line numbers and placeholders.
    Dim,
}

/// A piece of text with one style.
#[derive(Clone, Debug, PartialEq, Eq)]
pub struct Fragment {
    pub text: String,
    pub style: FragmentStyle,
}

/// The mathematical value of a [`Fragment`].
pub struct FragmentView {
    pub text: Seq<char>,
    pub style: FragmentStyle,
}

impl View for Fragment {
    type V = FragmentView;

    open spec fn view(&self) -> FragmentView {
        FragmentView { text: self.text@, style: self.style }
    }
}

impl DeepView for Fragment {
    type V = FragmentView;

    open spec fn deep_view(&self) -> FragmentView {
        self.view()
    }
}

/// What a section shows on the left side: nothing for added text.
pub open spec fn left_fragment(section: SectionView) -> Seq<FragmentView> {
    match section {
        SectionView::Added(_) => Seq::empty(),
        SectionView::Modified { left, .. } => seq![
            FragmentView { text: left, style: FragmentStyle::Modified },
        ],
        SectionView::Same(text) => seq![FragmentView { text, style: FragmentStyle::Plain }],
        SectionView::Removed(text) => seq![FragmentView { text, style: FragmentStyle::Removed }],
    }
}

/// What a section shows on the right side: nothing for removed text.
pub open spec fn right_fragment(section: SectionView) -> Seq<FragmentView> {
    match section {
        SectionView::Added(text) => seq![FragmentView { text, style: FragmentStyle::Added }],
        SectionView::Modified { right, .. } => seq![
            FragmentView { text: right, style: FragmentStyle::Modified },
        ],
        SectionView::Same(text) => seq![FragmentView { text, style: FragmentStyle::Plain }],
        SectionView::Removed(_) => Seq::empty(),
    }
}

/// What the sections of a line show on the left side, in order.
pub open spec fn left_fragments(sections: Seq<SectionView>) -> Seq<FragmentView>
    decreases sections.len(),
{
    if sections.len() == 0 {
        Seq::empty()
    } else {
        left_fragments(sections.drop_last()) + left_fragment(sections.last())
    }
}

/// What the sections of a line show on the right side, in order.
pub open spec fn right_fragments(sections: Seq<SectionView>) -> Seq<FragmentView>
    decreases sections.len(),
{
    if sections.len() == 0 {
        Seq::empty()
    } else {
        right_fragments(sections.drop_last()) + right_fragment(sections.last())
    }
}

/// The left side of every line of a diff table.
pub open spec fn left_side(table: Seq<Seq<SectionView>>) -> Seq<Seq<FragmentView>> {
    Seq::new(table.len(), |i: int| left_fragments(table[i]))
}

/// The right side of every line of a diff table.
pub open spec fn right_side(table: Seq<Seq<SectionView>>) -> Seq<Seq<FragmentView>> {
    Seq::new(table.len(), |i: int| right_fragments(table[i]))
}

/// Splits the sections of one line into what each side shows.
fn build_line_spans(line_diffs: &Vec<DiffSection>) -> (spans: (Vec<Fragment>, Vec<Fragment>))
    ensures
        spans.0.deep_view() == left_fragments(line_diffs.deep_view()),
        spans.1.deep_view() == right_fragments(line_diffs.deep_view()),
{
    let ghost sections = line_diffs.deep_view();
    let mut line1: Vec<Fragment> = Vec::new();
    let mut line2: Vec<Fragment> = Vec::new();
    let mut i: usize = 0;
    proof {
        assert(sections.take(0) =~= Seq::<SectionView>::empty());
        assert(line1.deep_view() =~= Seq::<FragmentView>::empty());
        assert(line2.deep_view() =~= Seq::<FragmentView>::empty());
    }
    while i < line_diffs.len()
        invariant
            sections == line_diffs.deep_view(),
            i <= line_diffs@.len(),
            line1.deep_view() == left_fragments(sections.take(i as int)),
            line2.deep_view() == right_fragments(sections.take(i as int)),
        decreases line_diffs@.len() - i,
    {
        let ghost before1 = line1.deep_view();
        let ghost before2 = line2.deep_view();
        proof {
            assert(sections.take(i + 1).drop_last() =~= sections.take(i as int));
            assert(sections.take(i + 1).last() == sections[i as int]);
        }
        match &line_diffs[i] {
            DiffSection::Added(string) => {
                let span = Fragment { text: string.clone(), style: FragmentStyle::Added };
                line2.push(span);
                assert(line2.deep_view() =~= before2 + right_fragment(sections[i as int]));
                assert(line1.deep_view() =~= before1 + left_fragment(sections[i as int]));
            },
            DiffSection::Modified { left, right } => {
                let span1 = Fragment { text: left.clone(), style: FragmentStyle::Modified };
                let span2 = Fragment { text: right.clone(), style: FragmentStyle::Modified };
                line1.push(span1);
                line2.push(span2);
                assert(line1.deep_view() =~= before1 + left_fragment(sections[i as int]));
                assert(line2.deep_view() =~= before2 + right_fragment(sections[i as int]));
            },
            DiffSection::Same(string) => {
                let span1 = Fragment { text: string.clone(), style: FragmentStyle::Plain };
                let span2 = Fragment { text: string.clone(), style: FragmentStyle::Plain };
                line1.push(span1);
                line2.push(span2);
                assert(line1.deep_view() =~= before1 + left_fragment(sections[i as int]));
                assert(line2.deep_view() =~= before2 + right_fragment(sections[i as int]));
            },
            DiffSection::Removed(string) => {
                let span = Fragment { text: string.clone(), style: FragmentStyle::Removed };
                line1.push(span);
                assert(line1.deep_view() =~= before1 + left_fragment(sections[i as int]));
                assert(line2.deep_view() =~= before2 + right_fragment(sections[i as int]));
            },
        }
        i += 1;
    }
    proof {
        assert(sections.take(sections.len() as int) =~= sections);
    }
    (line1, line2)
}

/// Splits a diff table into what each side shows, line by line.
///
/// Text that is the same goes to both sides, modified text to each side with
/// its own wording, removed text to the left side only and added text to the
/// right side only.
pub fn build_spans(diffs: &Vec<Vec<DiffSection>>) -> (spans: (Vec<Vec<Fragment>>, Vec<Vec<Fragment>>))
    ensures
        spans.0.deep_view() == left_side(diffs.deep_view()),
        spans.1.deep_view() == right_side(diffs.deep_view()),
{
    let ghost table = diffs.deep_view();
    let mut file1_spans: Vec<Vec<Fragment>> = Vec::new();
    let mut file2_spans: Vec<Vec<Fragment>> = Vec::new();
    let mut i: usize = 0;
    while i < diffs.len()
        invariant
            table == diffs.deep_view(),
            i <= diffs@.len(),
            file1_spans.deep_view() == left_side(table).take(i as int),
            file2_spans.deep_view() == right_side(table).take(i as int),
        decreases diffs@.len() - i,
    {
        let ghost before1 = file1_spans.deep_view();
        let ghost before2 = file2_spans.deep_view();
        let (line1, line2) = build_line_spans(&diffs[i]);
        file1_spans.push(line1);
        file2_spans.push(line2);
        proof {
            assert(diffs@[i as int].deep_view() == table[i as int]);
            assert(file1_spans.deep_view() =~= before1.push(line1.deep_view()));
            assert(file2_spans.deep_view() =~= before2.push(line2.deep_view()));
            assert(left_side(table).take(i + 1) =~= left_side(table).take(i as int).push(
                left_fragments(table[i as int]),
            ));
            assert(right_side(table).take(i + 1) =~= right_side(table).take(i as int).push(
                right_fragments(table[i as int]),
            ));
        }
        i += 1;
    }
    proof {
        assert(left_side(table).take(table.len() as int) =~= left_side(table));
        assert(right_side(table).take(table.len() as int) =~= right_side(table));
    }
    (file1_spans, file2_spans)
}

/// The fragments that are visible from character `offset` of a line on:
/// fragments that end at or before the offset are dropped, the fragment that
/// the offset falls into loses its characters before the offset, and the
/// fragments after it stay whole.
pub open spec fn visible_from(fragments: Seq<FragmentView>, offset: nat) -> Seq<FragmentView>
    decreases fragments.len(),
{
    if fragments.len() == 0 {
        Seq::empty()
    } else if offset == 0 {
        fragments
    } else if offset < fragments[0].text.len() {
        seq![
            FragmentView {
                text: fragments[0].text.skip(offset as int),
                style: fragments[0].style,
            },
        ] + fragments.drop_first()
    } else {
        visible_from(fragments.drop_first(), (offset - fragments[0].text.len()) as nat)
    }
}

/// Cuts a line of fragments to what is visible from character
/// `horizontal_offset` on.
pub fn spans_substring(spans: &Vec<Fragment>, horizontal_offset: usize) -> (visible: Vec<Fragment>)
    ensures
        visible.deep_view() == visible_from(spans.deep_view(), horizontal_offset as nat),
{
    let ghost all = spans.deep_view();
    let mut required_offset = horizontal_offset;
    let mut visible: Vec<Fragment> = Vec::new();
    let mut i: usize = 0;
    proof {
        assert(all.skip(0) =~= all);
        assert(visible.deep_view() =~= Seq::<FragmentView>::empty());
        assert(Seq::<FragmentView>::empty() + visible_from(all, horizontal_offset as nat)
            =~= visible_from(all, horizontal_offset as nat));
    }
    while i < spans.len()
        invariant
            all == spans.deep_view(),
            i <= spans@.len(),
            required_offset > 0 ==> visible@.len() == 0,
            visible.deep_view() + visible_from(all.skip(i as int), required_offset as nat)
                == visible_from(all, horizontal_offset as nat),
        decreases spans@.len() - i,
    {
        let span = &spans[i];
        let ghost before = visible.deep_view();
        let ghost rest = all.skip(i as int);
        proof {
            assert(rest[0] == span@);
            assert(rest.drop_first() =~= all.skip(i + 1));
        }
        if required_offset == 0 {
            visible.push(Fragment { text: span.text.clone(), style: span.style });
            proof {
                lemma_visible_from_start(rest);
                lemma_visible_from_start(all.skip(i + 1));
                assert(visible.deep_view() =~= before.push(span@));
                assert(before.push(span@) + all.skip(i + 1) =~= before + rest);
            }
        } else {
            let width = span.text.as_str().unicode_len();
            if required_offset < width {
                let text = span.text.as_str().substring_char(required_offset, width).to_owned();
                let ghost cut = FragmentView {
                    text: span@.text.skip(required_offset as int),
                    style: span.style,
                };
                visible.push(Fragment { text, style: span.style });
                proof {
                    assert(span@.text.subrange(required_offset as int, width as int)
                        =~= span@.text.skip(required_offset as int));
                    lemma_visible_from_start(all.skip(i + 1));
                    assert(visible.deep_view() =~= before.push(cut));
                    assert(before.push(cut) + all.skip(i + 1) =~= before + (seq![cut] + all.skip(
                        i + 1,
                    )));
                }
                required_offset = 0;
            } else {
                required_offset -= width;
            }
        }
        i += 1;
    }
    proof {
        assert(all.skip(all.len() as int) =~= Seq::<FragmentView>::empty());
        assert(visible.deep_view() + Seq::<FragmentView>::empty() =~= visible.deep_view());
    }
    visible
}

/// From offset zero on, the whole line is visible.
pub proof fn lemma_visible_from_start(fragments: Seq<FragmentView>)
    ensures
        visible_from(fragments, 0) == fragments,
{
    if fragments.len() == 0 {
        assert(fragments =~= Seq::<FragmentView>::empty());
    }
}

/// The text of a line of fragments.
pub open spec fn fragments_text(fragments: Seq<FragmentView>) -> Seq<char>
    decreases fragments.len(),
{
    if fragments.len() == 0 {
        Seq::empty()
    } else {
        fragments[0].text + fragments_text(fragments.drop_first())
    }
}

/// What is visible of a line from an offset on holds the text of the line
/// without its first `offset` characters, and nothing where the line is no
/// longer than the offset.
pub proof fn lemma_visible_text(fragments: Seq<FragmentView>, offset: nat)
    ensures
        fragments_text(visible_from(fragments, offset)) == if offset <= fragments_text(
            fragments,
        ).len() {
            fragments_text(fragments).skip(offset as int)
        } else {
            Seq::empty()
        },
    decreases fragments.len(),
{
    let text = fragments_text(fragments);
    if fragments.len() == 0 {
        assert(text.skip(0) =~= Seq::<char>::empty());
    } else if offset == 0 {
        assert(text.skip(0) =~= text);
    } else {
        let first = fragments[0].text;
        let rest = fragments.drop_first();
        if offset < first.len() {
            let cut = FragmentView { text: first.skip(offset as int), style: fragments[0].style };
            let shown = seq![cut] + rest;
            assert(shown[0] == cut);
            assert(shown.drop_first() =~= rest);
            assert(first.skip(offset as int) + fragments_text(rest) =~= text.skip(offset as int));
        } else {
            lemma_visible_text(rest, (offset - first.len()) as nat);
            if offset <= text.len() {
                assert(fragments_text(rest).skip(offset - first.len()) =~= text.skip(
                    offset as int,
                ));
            }
        }
    }
}

/// The number of terminal columns that `text` takes when it is shown as one
/// span.
pub uninterp spec fn span_width(text: Seq<char>) -> nat;

/// Calls `Span::width` of the tui crate on a raw span that holds `text`.
/// Trusted to depend on the characters of `text` alone.
#[verifier::external_body]
pub(crate) fn display_width(text: &str) -> (width: usize)
    ensures
        width == span_width(text@),
{
    Span::raw(text).width()
}

/// Whether a line of fragments takes no column at all: every fragment has
/// width zero.
pub open spec fn fragments_blank(fragments: Seq<FragmentView>) -> bool {
    forall|i: int| 0 <= i < fragments.len() ==> span_width((#[trigger] fragments[i]).text) == 0
}

/// Whether a line of fragments takes no column at all.
pub fn is_blank(spans: &Vec<Fragment>) -> (blank: bool)
    ensures
        blank == fragments_blank(spans.deep_view()),
{
    let mut i: usize = 0;
    while i < spans.len()
        invariant
            i <= spans@.len(),
            forall|k: int| 0 <= k < i ==> span_width((#[trigger] spans.deep_view()[k]).text) == 0,
        decreases spans@.len() - i,
    {
        if display_width(spans[i].text.as_str()) != 0 {
            assert(span_width(spans.deep_view()[i as int].text) != 0);
            return false;
        }
        i += 1;
    }
    true
}

/// A line that holds only the dim mark `mark`.
pub open spec fn placeholder(mark: Seq<char>) -> Seq<FragmentView> {
    seq![FragmentView { text: mark, style: FragmentStyle::Dim }]
}

/// What a line shows: the mark `EOF` where the line was blank before it was
/// cut, the mark `<==` where only the cut left it blank, else what is
/// visible of it.
pub open spec fn shown_content(
    visible: Seq<FragmentView>,
    uncut_blank: bool,
    visible_blank: bool,
) -> Seq<FragmentView> {
    if uncut_blank {
        placeholder("EOF"@)
    } else if visible_blank {
        placeholder("<=="@)
    } else {
        visible
    }
}

/// Replaces a line that shows nothing by a placeholder: `EOF` where the line
/// was blank to begin with, `<==` where its text lies left of what is
/// visible.
pub fn add_left_placeholder(spans: Vec<Fragment>, uncut_blank: bool, visible_blank: bool) -> (shown:
    Vec<Fragment>)
    ensures
        shown.deep_view() == shown_content(spans.deep_view(), uncut_blank, visible_blank),
{
    if uncut_blank {
        let mut shown: Vec<Fragment> = Vec::new();
        shown.push(Fragment { text: "EOF".to_owned(), style: FragmentStyle::Dim });
        assert(shown.deep_view() =~= placeholder("EOF"@));
        shown
    } else if visible_blank {
        let mut shown: Vec<Fragment> = Vec::new();
        shown.push(Fragment { text: "<==".to_owned(), style: FragmentStyle::Dim });
        assert(shown.deep_view() =~= placeholder("<=="@));
        shown
    } else {
        spans
    }
}

/// What line `spans` shows from character `horizontal_offset` on.
pub open spec fn line_content(spans: Seq<FragmentView>, horizontal_offset: nat) -> Seq<
    FragmentView,
> {
    let visible = visible_from(spans, horizontal_offset);
    shown_content(visible, fragments_blank(spans), fragments_blank(visible))
}

/// A line of a list: the dim label of its number, then what the line shows.
pub open spec fn list_line(spans: Seq<FragmentView>, horizontal_offset: nat, number: nat) -> Seq<
    FragmentView,
> {
    seq![FragmentView { text: label_spec(number), style: FragmentStyle::Dim }] + line_content(
        spans,
        horizontal_offset,
    )
}

/// The lines of a list, numbered from `start_line_number` on.
pub open spec fn list_lines(
    file_spans: Seq<Seq<FragmentView>>,
    horizontal_offset: nat,
    start_line_number: nat,
) -> Seq<Seq<FragmentView>> {
    Seq::new(
        file_spans.len(),
        |i: int| list_line(file_spans[i], horizontal_offset, (start_line_number + i) as nat),
    )
}

/// Builds the list lines of one side.
fn process_spans_into_lines(
    file_spans: &Vec<Vec<Fragment>>,
    horizontal_offset: usize,
    start_line_number: usize,
) -> (lines: Vec<Vec<Fragment>>)
    ensures
        lines.deep_view() == list_lines(
            file_spans.deep_view(),
            horizontal_offset as nat,
            start_line_number as nat,
        ),
{
    let ghost all = file_spans.deep_view();
    let ghost expected = list_lines(all, horizontal_offset as nat, start_line_number as nat);
    let mut lines: Vec<Vec<Fragment>> = Vec::new();
    let mut index: usize = 0;
    while index < file_spans.len()
        invariant
            all == file_spans.deep_view(),
            expected == list_lines(all, horizontal_offset as nat, start_line_number as nat),
            index <= file_spans@.len(),
            lines.deep_view() == expected.take(index as int),
        decreases file_spans@.len() - index,
    {
        let spans = &file_spans[index];
        let ghost before = lines.deep_view();
        assert(spans.deep_view() == all[index as int]);
        let uncut_blank = is_blank(spans);
        let visible = spans_substring(spans, horizontal_offset);
        let visible_blank = is_blank(&visible);
        let content = add_left_placeholder(visible, uncut_blank, visible_blank);
        let number = start_line_number as u128 + index as u128;
        let mut line: Vec<Fragment> = Vec::new();
        line.push(Fragment { text: line_number_label(number), style: FragmentStyle::Dim });
        let ghost label = line.deep_view();
        assert(label =~= seq![
            FragmentView { text: label_spec(number as nat), style: FragmentStyle::Dim },
        ]);
        let mut k: usize = 0;
        assert(label + content.deep_view().take(0) =~= label);
        while k < content.len()
            invariant
                k <= content@.len(),
                line.deep_view() == label + content.deep_view().take(k as int),
            decreases content@.len() - k,
        {
            let ghost shorter = line.deep_view();
            line.push(Fragment { text: content[k].text.clone(), style: content[k].style });
            proof {
                let piece = content.deep_view()[k as int];
                assert(line.deep_view() =~= shorter.push(piece));
                assert(content.deep_view().take(k + 1) =~= content.deep_view().take(
                    k as int,
                ).push(piece));
                assert(line.deep_view() =~= label + content.deep_view().take(k + 1));
            }
            k += 1;
        }
        proof {
            assert(content.deep_view().take(content@.len() as int) =~= content.deep_view());
            assert(line.deep_view() == expected[index as int]);
        }
        lines.push(line);
        proof {
            assert(lines.deep_view() =~= before.push(line.deep_view()));
            assert(expected.take(index + 1) =~= expected.take(index as int).push(
                expected[index as int],
            ));
        }
        index += 1;
    }
    proof {
        assert(expected.take(expected.len() as int) =~= expected);
    }
    lines
}

/// Builds the list lines of both sides from what each side shows.
///
/// Each line is cut to what is visible from character `horizontal_offset`
/// on, replaced by a placeholder where that is blank, and gets the label of
/// its line number in front, the first line that of `start_line_number`.
pub fn build_lines(
    file1_spans: &Vec<Vec<Fragment>>,
    file2_spans: &Vec<Vec<Fragment>>,
    horizontal_offset: usize,
    start_line_number: usize,
) -> (lines: (Vec<Vec<Fragment>>, Vec<Vec<Fragment>>))
    ensures
        lines.0.deep_view() == list_lines(
            file1_spans.deep_view(),
            horizontal_offset as nat,
            start_line_number as nat,
        ),
        lines.1.deep_view() == list_lines(
            file2_spans.deep_view(),
            horizontal_offset as nat,
            start_line_number as nat,
        ),
{
    (
        process_spans_into_lines(file1_spans, horizontal_offset, start_line_number),
        process_spans_into_lines(file2_spans, horizontal_offset, start_line_number),
    )
}

/// The text of two lines of fragments, one after the other, is the text of
/// the first followed by the text of the second.
pub proof fn lemma_fragments_text_concat(first: Seq<FragmentView>, second: Seq<FragmentView>)
    ensures
        fragments_text(first + second) == fragments_text(first) + fragments_text(second),
    decreases first.len(),
{
    if first.len() == 0 {
        assert(first + second =~= second);
        assert(Seq::<char>::empty() + fragments_text(second) =~= fragments_text(second));
    } else {
        let all = first + second;
        assert(all[0] == first[0]);
        assert(all.drop_first() =~= first.drop_first() + second);
        lemma_fragments_text_concat(first.drop_first(), second);
        assert(first[0].text + (fragments_text(first.drop_first()) + fragments_text(second))
            =~= (first[0].text + fragments_text(first.drop_first())) + fragments_text(second));
    }
}

/// Each side shows the text that the sections hold for it.
pub proof fn lemma_sides_show_texts(sections: Seq<SectionView>)
    ensures
        fragments_text(left_fragments(sections)) == left_concat(sections),
        fragments_text(right_fragments(sections)) == right_concat(sections),
    decreases sections.len(),
{
    if sections.len() > 0 {
        let head = sections.drop_last();
        let last = sections.last();
        lemma_sides_show_texts(head);
        lemma_fragments_text_concat(left_fragments(head), left_fragment(last));
        lemma_fragments_text_concat(right_fragments(head), right_fragment(last));
        lemma_piece_text(left_fragment(last));
        lemma_piece_text(right_fragment(last));
    }
}

proof fn lemma_piece_text(piece: Seq<FragmentView>)
    requires
        piece.len() <= 1,
    ensures
        fragments_text(piece) == if piece.len() == 0 {
            Seq::<char>::empty()
        } else {
            piece[0].text
        },
{
    if piece.len() == 1 {
        assert(piece.drop_first() =~= Seq::<FragmentView>::empty());
        assert(fragments_text(piece.drop_first()) =~= Seq::<char>::empty());
        assert(piece[0].text + Seq::<char>::empty() =~= piece[0].text);
    }
}

/// Of the diff of two lines, the left side shows the left line and the right
/// side shows the right line.
pub proof fn lemma_sides_show_lines(left: Seq<char>, right: Seq<char>)
    ensures
        fragments_text(left_fragments(diff_lines_spec(left, right))) == left,
        fragments_text(right_fragments(diff_lines_spec(left, right))) == right,
{
    lemma_sides_show_texts(diff_lines_spec(left, right));
    lemma_diff_reconstructs_lines(left, right);
}

} // verus!
