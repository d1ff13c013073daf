//! Character-level positional diff of two lines, and of two sequences of
//! lines.
//!
//! The comparison is positional: the characters of the two lines are paired
//! by index, never aligned by content.

use crate::pairing::{chars_of, longer_len, zip_longest, Paired};
use crate::section::{merge_diff, merge_step, pending_view, DiffSection, SectionView};
use crate::text::{char_string, text_byte_len};
use vstd::prelude::*;

verus! {

/// The one-character section that classifies position `i` of two lines: the
/// same character on both sides, a different one on each, or a character of
/// the only line that reaches this far.
pub open spec fn unit_at(left: Seq<char>, right: Seq<char>, i: int) -> SectionView {
    if i < left.len() && i < right.len() {
        if left[i] == right[i] {
            SectionView::Same(seq![left[i]])
        } else {
            SectionView::Modified { left: seq![left[i]], right: seq![right[i]] }
        }
    } else if i < left.len() {
        SectionView::Removed(seq![left[i]])
    } else {
        SectionView::Added(seq![right[i]])
    }
}

/// The classification of every position of two lines, before any merging.
pub open spec fn classify(left: Seq<char>, right: Seq<char>) -> Seq<SectionView> {
    Seq::new(longer_len(left, right), |i: int| unit_at(left, right, i))
}

/// Appends `next` to merged `sections`: joined to the last section where the
/// two have the same kind, as a section of its own otherwise.
pub open spec fn absorb(sections: Seq<SectionView>, next: SectionView) -> Seq<SectionView> {
    if sections.len() > 0 && sections.last().same_kind(next) {
        sections.drop_last().push(sections.last().join(next))
    } else {
        sections.push(next)
    }
}

/// The sections of `units` with every run of neighbours of one kind joined
/// into a single section.
pub open spec fn merged(units: Seq<SectionView>) -> Seq<SectionView>
    decreases units.len(),
{
    if units.len() == 0 {
        Seq::empty()
    } else {
        absorb(merged(units.drop_last()), units.last())
    }
}

/// The diff of two lines: their positions classified one by one, neighbours
/// of the same kind merged.
pub open spec fn diff_lines_spec(left: Seq<char>, right: Seq<char>) -> Seq<SectionView> {
    merged(classify(left, right))
}

/// The sections for position `i` of two sequences of lines: the diff of the
/// two lines where both sequences have one, else the whole line of the only
/// sequence that has one, as removed (left) or added (right).
pub open spec fn line_pair_spec(
    lines1: Seq<Seq<char>>,
    lines2: Seq<Seq<char>>,
    i: int,
) -> Seq<SectionView> {
    if i < lines1.len() && i < lines2.len() {
        diff_lines_spec(lines1[i], lines2[i])
    } else if i < lines1.len() {
        seq![SectionView::Removed(lines1[i])]
    } else {
        seq![SectionView::Added(lines2[i])]
    }
}

/// The diff table of two sequences of lines, paired by index.
pub open spec fn diff_line_pairs_spec(lines1: Seq<Seq<char>>, lines2: Seq<Seq<char>>) -> Seq<
    Seq<SectionView>,
> {
    Seq::new(longer_len(lines1, lines2), |i: int| line_pair_spec(lines1, lines2, i))
}

/// The sum of the cursor lengths of `sections`.
pub open spec fn line_width(sections: Seq<SectionView>) -> nat
    decreases sections.len(),
{
    if sections.len() == 0 {
        0
    } else {
        line_width(sections.drop_last()) + sections.last().left_len()
    }
}

/// Whether every line of `table` has a width that a `usize` can hold.
pub open spec fn table_fits(table: Seq<Seq<SectionView>>) -> bool {
    forall|i: int| 0 <= i < table.len() ==> line_width(#[trigger] table[i]) <= usize::MAX
}

/// The sections that are open or closed after a stream of sections: the
/// completed ones, then the pending one if there is one.
pub open spec fn with_pending(completed: Seq<SectionView>, pending: Option<SectionView>) -> Seq<
    SectionView,
> {
    match pending {
        Some(open) => completed.push(open),
        None => completed,
    }
}

/// Merging one more unit is one step of the reducer on the pending section.
pub proof fn lemma_merge_step_absorbs(
    completed: Seq<SectionView>,
    pending: Option<SectionView>,
    next: SectionView,
)
    requires
        pending is None ==> completed.len() == 0,
    ensures
        ({
            let (open, closed) = merge_step(pending, next);
            absorb(with_pending(completed, pending), next) == with_pending(
                with_pending(completed, closed),
                open,
            )
        }),
{
    match pending {
        None => {},
        Some(open) => {
            let all = completed.push(open);
            assert(all.last() == open);
            assert(all.drop_last() =~= completed);
        },
    }
}

/// Merging a sequence with one more unit at its end absorbs that unit into
/// the merged sequence.
pub proof fn lemma_merged_push(units: Seq<SectionView>, next: SectionView)
    ensures
        merged(units.push(next)) == absorb(merged(units), next),
{
    assert(units.push(next).drop_last() =~= units);
}

/// Absorbing a unit adds its cursor length to the width.
pub proof fn lemma_absorb_width(sections: Seq<SectionView>, next: SectionView)
    ensures
        line_width(absorb(sections, next)) == line_width(sections) + next.left_len(),
{
    if sections.len() > 0 && sections.last().same_kind(next) {
        let joined = sections.drop_last().push(sections.last().join(next));
        assert(joined.drop_last() =~= sections.drop_last());
        assert(joined.last() == sections.last().join(next));
    } else {
        assert(sections.push(next).drop_last() =~= sections);
    }
}

/// The diff of two lines is as wide as the longer line has characters.
pub proof fn lemma_diff_width(left: Seq<char>, right: Seq<char>)
    ensures
        line_width(diff_lines_spec(left, right)) == longer_len(left, right),
{
    let units = classify(left, right);
    lemma_merged_prefix_width(left, right, units.len());
    assert(units.take(units.len() as int) =~= units);
}

proof fn lemma_merged_prefix_width(left: Seq<char>, right: Seq<char>, n: nat)
    requires
        n <= longer_len(left, right),
    ensures
        line_width(merged(classify(left, right).take(n as int))) == n,
    decreases n,
{
    let units = classify(left, right);
    if n > 0 {
        lemma_merged_prefix_width(left, right, (n - 1) as nat);
        let shorter = units.take(n - 1);
        assert(units.take(n as int) =~= shorter.push(units[n - 1]));
        lemma_merged_push(shorter, units[n - 1]);
        lemma_absorb_width(merged(shorter), units[n - 1]);
    } else {
        assert(units.take(0) =~= Seq::<SectionView>::empty());
    }
}

/// Diffs two lines position by position.
///
/// Each position is classified as same, modified, removed or added;
/// neighbouring positions of one kind form one section.
pub fn diff_lines(line1: &str, line2: &str) -> (sections: Vec<DiffSection>)
    ensures
        sections.deep_view() == diff_lines_spec(line1@, line2@),
        line_width(sections.deep_view()) == longer_len(line1@, line2@),
        line_width(sections.deep_view()) <= usize::MAX,
{
    let chars1 = chars_of(line1);
    let chars2 = chars_of(line2);
    let pairs = zip_longest(&chars1, &chars2);
    let ghost units = classify(line1@, line2@);
    let mut pending: Option<DiffSection> = None;
    let mut diffs: Vec<DiffSection> = Vec::new();
    let mut i: usize = 0;
    proof {
        assert(units.take(0) =~= Seq::<SectionView>::empty());
        assert(diffs.deep_view() =~= Seq::<SectionView>::empty());
    }
    while i < pairs.len()
        invariant
            i <= pairs@.len(),
            chars1@ == line1@,
            chars2@ == line2@,
            units == classify(line1@, line2@),
            pairs@.len() == units.len(),
            forall|k: int|
                0 <= k < pairs@.len() ==> pairs@[k] == crate::pairing::paired_at(
                    chars1@,
                    chars2@,
                    k,
                ),
            pending is None ==> diffs@.len() == 0,
            with_pending(diffs.deep_view(), pending_view(pending)) == merged(units.take(i as int)),
        decreases pairs@.len() - i,
    {
        let unit = match pairs[i] {
            Paired::Both(c1, c2) => {
                if *c1 == *c2 {
                    DiffSection::Same(char_string(*c1))
                } else {
                    DiffSection::Modified { left: char_string(*c1), right: char_string(*c2) }
                }
            },
            Paired::Left(c1) => DiffSection::Removed(char_string(*c1)),
            Paired::Right(c2) => DiffSection::Added(char_string(*c2)),
        };
        assert(unit@ == units[i as int]);
        let ghost before = diffs.deep_view();
        let ghost was_pending = pending_view(pending);
        let (new_pending, completed) = merge_diff(pending, unit);
        if let Some(done) = completed {
            diffs.push(done);
            assert(diffs.deep_view() =~= before.push(done@));
        }
        pending = new_pending;
        proof {
            lemma_merge_step_absorbs(before, was_pending, units[i as int]);
            assert(units.take(i + 1) =~= units.take(i as int).push(units[i as int]));
            lemma_merged_push(units.take(i as int), units[i as int]);
        }
        i += 1;
    }
    let ghost before = diffs.deep_view();
    if let Some(last) = pending {
        diffs.push(last);
        assert(diffs.deep_view() =~= before.push(last@));
    }
    proof {
        assert(units.take(units.len() as int) =~= units);
        lemma_diff_width(line1@, line2@);
    }
    diffs
}

/// Diffs two sequences of lines pair by pair.
///
/// Where both sequences have a line at an index, the entry is the diff of the
/// two lines. A line without a partner becomes a single section that holds
/// the whole line: removed if it is on the left, added if on the right.
pub fn diff_line_pairs(lines1: &Vec<String>, lines2: &Vec<String>) -> (table: Vec<
    Vec<DiffSection>,
>)
    ensures
        table.deep_view() == diff_line_pairs_spec(lines1.deep_view(), lines2.deep_view()),
        table_fits(table.deep_view()),
{
    let pairs = zip_longest(lines1, lines2);
    let ghost rows = diff_line_pairs_spec(lines1.deep_view(), lines2.deep_view());
    let mut table: Vec<Vec<DiffSection>> = Vec::new();
    let mut i: usize = 0;
    while i < pairs.len()
        invariant
            i <= pairs@.len(),
            rows == diff_line_pairs_spec(lines1.deep_view(), lines2.deep_view()),
            pairs@.len() == rows.len(),
            forall|k: int|
                0 <= k < pairs@.len() ==> pairs@[k] == crate::pairing::paired_at(
                    lines1@,
                    lines2@,
                    k,
                ),
            table.deep_view() == rows.take(i as int),
            table_fits(table.deep_view()),
        decreases pairs@.len() - i,
    {
        let ghost before = table.deep_view();
        let row = match pairs[i] {
            Paired::Both(line1, line2) => diff_lines(line1.as_str(), line2.as_str()),
            Paired::Left(line1) => {
                let _ = text_byte_len(line1.as_str());
                let mut row: Vec<DiffSection> = Vec::new();
                row.push(DiffSection::Removed((*line1).clone()));
                assert(row.deep_view() =~= seq![SectionView::Removed(line1@)]);
                row
            },
            Paired::Right(line2) => {
                let _ = text_byte_len(line2.as_str());
                let mut row: Vec<DiffSection> = Vec::new();
                row.push(DiffSection::Added((*line2).clone()));
                assert(row.deep_view() =~= seq![SectionView::Added(line2@)]);
                row
            },
        };
        proof {
            assert(row.deep_view() == rows[i as int]);
            assert(line_width(row.deep_view()) <= usize::MAX) by {
                lemma_single_width(row.deep_view());
            }
        }
        table.push(row);
        proof {
            assert(table.deep_view() =~= before.push(row.deep_view()));
            assert(rows.take(i + 1) =~= rows.take(i as int).push(rows[i as int]));
        }
        i += 1;
    }
    proof {
        assert(rows.take(rows.len() as int) =~= rows);
    }
    table
}

/// A line of one section is as wide as that section is long.
pub proof fn lemma_single_width(sections: Seq<SectionView>)
    ensures
        sections.len() == 1 ==> line_width(sections) == sections[0].left_len(),
{
    if sections.len() == 1 {
        assert(sections.drop_last() =~= Seq::<SectionView>::empty());
        assert(line_width(sections.drop_last()) == 0);
    }
}

/// The left line as the sections hold it: the left texts of the sections, in
/// order.
pub open spec fn left_concat(sections: Seq<SectionView>) -> Seq<char>
    decreases sections.len(),
{
    if sections.len() == 0 {
        Seq::empty()
    } else {
        left_concat(sections.drop_last()) + sections.last().left_text()
    }
}

/// The right line as the sections hold it: the right texts of the sections,
/// in order.
pub open spec fn right_concat(sections: Seq<SectionView>) -> Seq<char>
    decreases sections.len(),
{
    if sections.len() == 0 {
        Seq::empty()
    } else {
        right_concat(sections.drop_last()) + sections.last().right_text()
    }
}

/// Whether no two neighbours in `sections` have the same kind.
pub open spec fn alternating(sections: Seq<SectionView>) -> bool {
    forall|i: int|
        0 <= i < sections.len() - 1 ==> !(#[trigger] sections[i]).same_kind(sections[i + 1])
}

/// Absorbing a unit appends its text to each side.
pub proof fn lemma_absorb_concat(sections: Seq<SectionView>, next: SectionView)
    ensures
        left_concat(absorb(sections, next)) == left_concat(sections) + next.left_text(),
        right_concat(absorb(sections, next)) == right_concat(sections) + next.right_text(),
{
    if sections.len() > 0 && sections.last().same_kind(next) {
        let last = sections.last();
        let joined = sections.drop_last().push(last.join(next));
        assert(joined.drop_last() =~= sections.drop_last());
        assert(joined.last() == last.join(next));
        let left_head = left_concat(sections.drop_last());
        let right_head = right_concat(sections.drop_last());
        assert(left_head + (last.left_text() + next.left_text()) =~= (left_head
            + last.left_text()) + next.left_text());
        assert(right_head + (last.right_text() + next.right_text()) =~= (right_head
            + last.right_text()) + next.right_text());
    } else {
        assert(sections.push(next).drop_last() =~= sections);
    }
}

proof fn lemma_merged_prefix_concat(left: Seq<char>, right: Seq<char>, n: nat)
    requires
        n <= longer_len(left, right),
    ensures
        left_concat(merged(classify(left, right).take(n as int))) == left.take(
            if n <= left.len() {
                n as int
            } else {
                left.len() as int
            },
        ),
        right_concat(merged(classify(left, right).take(n as int))) == right.take(
            if n <= right.len() {
                n as int
            } else {
                right.len() as int
            },
        ),
    decreases n,
{
    let units = classify(left, right);
    if n > 0 {
        lemma_merged_prefix_concat(left, right, (n - 1) as nat);
        let shorter = units.take(n - 1);
        let unit = units[n - 1];
        assert(units.take(n as int) =~= shorter.push(unit));
        lemma_merged_push(shorter, unit);
        lemma_absorb_concat(merged(shorter), unit);
        if n <= left.len() {
            assert(unit.left_text() =~= seq![left[n - 1]]);
            assert(left.take(n - 1) + seq![left[n - 1]] =~= left.take(n as int));
        } else {
            assert(unit.left_text() =~= Seq::<char>::empty());
            assert(left.take(left.len() as int) + Seq::<char>::empty() =~= left.take(
                left.len() as int,
            ));
        }
        if n <= right.len() {
            assert(unit.right_text() =~= seq![right[n - 1]]);
            assert(right.take(n - 1) + seq![right[n - 1]] =~= right.take(n as int));
        } else {
            assert(unit.right_text() =~= Seq::<char>::empty());
            assert(right.take(right.len() as int) + Seq::<char>::empty() =~= right.take(
                right.len() as int,
            ));
        }
    } else {
        assert(units.take(0) =~= Seq::<SectionView>::empty());
        assert(left.take(0) =~= Seq::<char>::empty());
        assert(right.take(0) =~= Seq::<char>::empty());
    }
}

/// The diff of two lines holds both of them: the same, modified-left and
/// removed texts, read in order, are the left line; the same, modified-right
/// and added texts are the right line.
pub proof fn lemma_diff_reconstructs_lines(left: Seq<char>, right: Seq<char>)
    ensures
        left_concat(diff_lines_spec(left, right)) == left,
        right_concat(diff_lines_spec(left, right)) == right,
{
    let units = classify(left, right);
    lemma_merged_prefix_concat(left, right, units.len());
    assert(units.take(units.len() as int) =~= units);
    assert(left.take(left.len() as int) =~= left);
    assert(right.take(right.len() as int) =~= right);
}

/// Absorbing a unit keeps neighbours of different kinds.
pub proof fn lemma_absorb_alternating(sections: Seq<SectionView>, next: SectionView)
    requires
        alternating(sections),
    ensures
        alternating(absorb(sections, next)),
{
    let after = absorb(sections, next);
    if sections.len() > 0 && sections.last().same_kind(next) {
        assert forall|i: int| 0 <= i < after.len() - 1 implies !(#[trigger] after[i]).same_kind(
            after[i + 1],
        ) by {
            assert(after[i] == sections[i]);
            assert(!sections[i].same_kind(sections[i + 1]));
        }
    } else {
        assert forall|i: int| 0 <= i < after.len() - 1 implies !(#[trigger] after[i]).same_kind(
            after[i + 1],
        ) by {
            assert(after[i] == sections[i]);
            if i + 1 < sections.len() {
                assert(!sections[i].same_kind(sections[i + 1]));
            }
        }
    }
}

/// Merging leaves no two neighbours of the same kind.
pub proof fn lemma_merged_alternating(units: Seq<SectionView>)
    ensures
        alternating(merged(units)),
    decreases units.len(),
{
    if units.len() > 0 {
        lemma_merged_alternating(units.drop_last());
        lemma_absorb_alternating(merged(units.drop_last()), units.last());
    }
}

/// Merging changes nothing where no two neighbours have the same kind.
pub proof fn lemma_merged_fixes_alternating(sections: Seq<SectionView>)
    requires
        alternating(sections),
    ensures
        merged(sections) == sections,
    decreases sections.len(),
{
    if sections.len() > 0 {
        let head = sections.drop_last();
        assert forall|i: int| 0 <= i < head.len() - 1 implies !(#[trigger] head[i]).same_kind(
            head[i + 1],
        ) by {
            assert(head[i] == sections[i]);
            assert(!sections[i].same_kind(sections[i + 1]));
        }
        lemma_merged_fixes_alternating(head);
        if head.len() > 0 {
            assert(head.last() == sections[sections.len() - 2]);
            assert(!sections[sections.len() - 2].same_kind(sections[sections.len() - 1]));
        }
        assert(head.push(sections.last()) =~= sections);
    }
}

/// No two neighbouring sections of a line diff have the same kind, and
/// merging the diff once more changes nothing.
pub proof fn lemma_diff_is_merged(left: Seq<char>, right: Seq<char>)
    ensures
        alternating(diff_lines_spec(left, right)),
        merged(diff_lines_spec(left, right)) == diff_lines_spec(left, right),
{
    lemma_merged_alternating(classify(left, right));
    lemma_merged_fixes_alternating(diff_lines_spec(left, right));
}

/// Whether every section holds at least one character.
pub open spec fn all_nonempty(sections: Seq<SectionView>) -> bool {
    forall|i: int| 0 <= i < sections.len() ==> (#[trigger] sections[i]).left_len() > 0
}

proof fn lemma_merged_prefix_nonempty(left: Seq<char>, right: Seq<char>, n: nat)
    requires
        n <= longer_len(left, right),
    ensures
        all_nonempty(merged(classify(left, right).take(n as int))),
    decreases n,
{
    let units = classify(left, right);
    if n > 0 {
        lemma_merged_prefix_nonempty(left, right, (n - 1) as nat);
        let shorter = units.take(n - 1);
        let unit = units[n - 1];
        assert(units.take(n as int) =~= shorter.push(unit));
        lemma_merged_push(shorter, unit);
        let before = merged(shorter);
        let after = absorb(before, unit);
        assert(unit.left_len() == 1);
        assert forall|i: int| 0 <= i < after.len() implies (#[trigger] after[i]).left_len()
            > 0 by {
            if i < before.len() - 1 {
                assert(after[i] == before[i]);
            } else if i < before.len() {
                assert(before[i].left_len() > 0);
            }
        }
    } else {
        assert(units.take(0) =~= Seq::<SectionView>::empty());
    }
}

/// No section of a line diff is empty.
pub proof fn lemma_diff_sections_nonempty(left: Seq<char>, right: Seq<char>)
    ensures
        all_nonempty(diff_lines_spec(left, right)),
{
    let units = classify(left, right);
    lemma_merged_prefix_nonempty(left, right, units.len());
    assert(units.take(units.len() as int) =~= units);
}

} // verus!
