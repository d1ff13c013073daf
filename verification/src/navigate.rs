//! Navigation over a diff table: the nearest changed section after or before
//! a cursor.
//!
//! A cursor is a line of the table and a character offset in that line. The
//! offset of a section counts the cursor lengths of the sections before it;
//! forward searches report the offset at which a section starts, backward
//! searches the offset at which it ends.

use crate::line_diff::{line_width, table_fits};
use crate::section::{DiffSection, SectionView};
use vstd::prelude::*;

verus! {

/// The offset at which section `k` of `line` starts.
pub open spec fn start_offset(line: Seq<SectionView>, k: int) -> nat {
    line_width(line.take(k))
}

/// The offset at which section `k` of `line` ends.
pub open spec fn end_offset(line: Seq<SectionView>, k: int) -> nat {
    line_width(line.take(k + 1))
}

/// Whether section `k` of line `line` is a changed section after the cursor:
/// on the cursor's line and starting beyond its offset, or on a later line.
pub open spec fn is_next_candidate(
    table: Seq<Seq<SectionView>>,
    from_line: int,
    from_offset: int,
    line: int,
    k: int,
) -> bool {
    &&& 0 <= from_line <= line < table.len()
    &&& 0 <= k < table[line].len()
    &&& table[line][k].is_change()
    &&& (line > from_line || start_offset(table[line], k) > from_offset)
}

/// Whether section `k` of line `line` is a changed section before the cursor:
/// on the cursor's line and ending before its offset, or on an earlier line.
pub open spec fn is_prev_candidate(
    table: Seq<Seq<SectionView>>,
    from_line: int,
    from_offset: int,
    line: int,
    k: int,
) -> bool {
    &&& 0 <= line < table.len()
    &&& line <= from_line
    &&& 0 <= k < table[line].len()
    &&& table[line][k].is_change()
    &&& (line < from_line || end_offset(table[line], k) < from_offset)
}

/// Whether section `k_a` of line `line_a` stands at or before section `k_b`
/// of line `line_b`.
pub open spec fn not_after(line_a: int, k_a: int, line_b: int, k_b: int) -> bool {
    line_a < line_b || (line_a == line_b && k_a <= k_b)
}

/// Whether section `k` of line `line` is the first changed section after the
/// cursor.
pub open spec fn is_first_after(
    table: Seq<Seq<SectionView>>,
    from_line: int,
    from_offset: int,
    line: int,
    k: int,
) -> bool {
    &&& is_next_candidate(table, from_line, from_offset, line, k)
    &&& forall|other_line: int, other_k: int|
        #[trigger] is_next_candidate(table, from_line, from_offset, other_line, other_k)
            ==> not_after(line, k, other_line, other_k)
}

/// Whether section `k` of line `line` is the last changed section before the
/// cursor.
pub open spec fn is_last_before(
    table: Seq<Seq<SectionView>>,
    from_line: int,
    from_offset: int,
    line: int,
    k: int,
) -> bool {
    &&& is_prev_candidate(table, from_line, from_offset, line, k)
    &&& forall|other_line: int, other_k: int|
        #[trigger] is_prev_candidate(table, from_line, from_offset, other_line, other_k)
            ==> not_after(other_line, other_k, line, k)
}

/// Whether the first changed section after the cursor stands on line `line`
/// and starts at `offset`.
pub open spec fn is_next_hit(
    table: Seq<Seq<SectionView>>,
    from_line: int,
    from_offset: int,
    line: int,
    offset: int,
) -> bool {
    exists|k: int| #[trigger]
        is_first_after(table, from_line, from_offset, line, k) && offset == start_offset(
            table[line],
            k,
        )
}

/// Whether the last changed section before the cursor stands on line `line`
/// and ends at `offset`.
pub open spec fn is_prev_hit(
    table: Seq<Seq<SectionView>>,
    from_line: int,
    from_offset: int,
    line: int,
    offset: int,
) -> bool {
    exists|k: int| #[trigger]
        is_last_before(table, from_line, from_offset, line, k) && offset == end_offset(
            table[line],
            k,
        )
}

/// What a forward search from the cursor returns: the line and the start
/// offset of the first changed section after the cursor, or nothing where no
/// changed section follows.
pub open spec fn is_next_diff(
    table: Seq<Seq<SectionView>>,
    from_line: int,
    from_offset: int,
    result: Option<(usize, usize)>,
) -> bool {
    match result {
        Some((line, offset)) => is_next_hit(
            table,
            from_line,
            from_offset,
            line as int,
            offset as int,
        ),
        None => forall|line: int, k: int|
            !#[trigger] is_next_candidate(table, from_line, from_offset, line, k),
    }
}

/// What a backward search from the cursor returns: the line and the end
/// offset of the last changed section before the cursor, or nothing where no
/// changed section precedes.
pub open spec fn is_prev_diff(
    table: Seq<Seq<SectionView>>,
    from_line: int,
    from_offset: int,
    result: Option<(usize, usize)>,
) -> bool {
    match result {
        Some((line, offset)) => is_prev_hit(
            table,
            from_line,
            from_offset,
            line as int,
            offset as int,
        ),
        None => forall|line: int, k: int|
            !#[trigger] is_prev_candidate(table, from_line, from_offset, line, k),
    }
}

/// The width of a prefix grows by the cursor length of the next section, and
/// no prefix is wider than the line.
pub proof fn lemma_width_step(line: Seq<SectionView>, k: int)
    requires
        0 <= k < line.len(),
    ensures
        line_width(line.take(k + 1)) == line_width(line.take(k)) + line[k].left_len(),
        line_width(line.take(k + 1)) <= line_width(line),
    decreases line.len() - k,
{
    assert(line.take(k + 1).drop_last() =~= line.take(k));
    assert(line.take(k + 1).last() == line[k]);
    if k + 1 < line.len() {
        lemma_width_step(line, k + 1);
    } else {
        assert(line.take(k + 1) =~= line);
    }
}

/// Finds the first changed section after the cursor `(match_line,
/// match_offset)`: one that starts beyond `match_offset` on line
/// `match_line`, or any on a later line. Returns its line and start offset.
pub fn find_next_diff(table: &Vec<Vec<DiffSection>>, match_line: usize, match_offset: usize) -> (result:
    Option<(usize, usize)>)
    requires
        table_fits(table.deep_view()),
    ensures
        is_next_diff(table.deep_view(), match_line as int, match_offset as int, result),
{
    let ghost rows = table.deep_view();
    let mut line_number = match_line;
    while line_number < table.len()
        invariant
            rows == table.deep_view(),
            table_fits(rows),
            match_line <= line_number,
            forall|line: int, k: int| #[trigger]
                is_next_candidate(rows, match_line as int, match_offset as int, line, k) ==> line
                    >= line_number,
        decreases table@.len() - line_number,
    {
        let line_diffs = &table[line_number];
        let ghost row = rows[line_number as int];
        assert(row == line_diffs.deep_view());
        let mut line_offset: usize = 0;
        let mut k: usize = 0;
        assert(row.take(0) =~= Seq::<SectionView>::empty());
        while k < line_diffs.len()
            invariant
                rows == table.deep_view(),
                table_fits(rows),
                match_line <= line_number < table@.len(),
                row == rows[line_number as int],
                row == line_diffs.deep_view(),
                k <= line_diffs@.len(),
                line_offset == start_offset(row, k as int),
                forall|line: int, j: int| #[trigger]
                    is_next_candidate(rows, match_line as int, match_offset as int, line, j)
                        ==> line > line_number || (line == line_number && j >= k),
            decreases line_diffs@.len() - k,
        {
            let diff = &line_diffs[k];
            assert(diff@ == row[k as int]);
            if diff.is_change() && (line_offset > match_offset || line_number > match_line) {
                assert(is_first_after(
                    rows,
                    match_line as int,
                    match_offset as int,
                    line_number as int,
                    k as int,
                ));
                assert(is_next_hit(
                    rows,
                    match_line as int,
                    match_offset as int,
                    line_number as int,
                    line_offset as int,
                ));
                return Some((line_number, line_offset));
            }
            proof {
                lemma_width_step(row, k as int);
            }
            line_offset += diff.left_len();
            k += 1;
        }
        line_number += 1;
    }
    None
}

/// The width of a line of the table.
fn row_width(line_diffs: &Vec<DiffSection>) -> (width: usize)
    requires
        line_width(line_diffs.deep_view()) <= usize::MAX,
    ensures
        width == line_width(line_diffs.deep_view()),
{
    let ghost row = line_diffs.deep_view();
    let mut width: usize = 0;
    let mut k: usize = 0;
    assert(row.take(0) =~= Seq::<SectionView>::empty());
    while k < line_diffs.len()
        invariant
            row == line_diffs.deep_view(),
            line_width(row) <= usize::MAX,
            k <= line_diffs@.len(),
            width == line_width(row.take(k as int)),
        decreases line_diffs@.len() - k,
    {
        proof {
            lemma_width_step(row, k as int);
        }
        width += line_diffs[k].left_len();
        k += 1;
    }
    assert(row.take(row.len() as int) =~= row);
    width
}

/// Finds the last changed section before the cursor `(match_line,
/// match_offset)`: one that ends before `match_offset` on line `match_line`,
/// or any on an earlier line. Returns its line and end offset.
pub fn find_prev_diff(table: &Vec<Vec<DiffSection>>, match_line: usize, match_offset: usize) -> (result:
    Option<(usize, usize)>)
    requires
        table_fits(table.deep_view()),
    ensures
        is_prev_diff(table.deep_view(), match_line as int, match_offset as int, result),
{
    let ghost rows = table.deep_view();
    let mut above: usize = if match_line < table.len() {
        match_line + 1
    } else {
        table.len()
    };
    while above > 0
        invariant
            rows == table.deep_view(),
            table_fits(rows),
            above <= table@.len(),
            above <= match_line + 1,
            forall|line: int, k: int| #[trigger]
                is_prev_candidate(rows, match_line as int, match_offset as int, line, k) ==> line
                    < above,
        decreases above,
    {
        let line_number = above - 1;
        let line_diffs = &table[line_number];
        let ghost row = rows[line_number as int];
        assert(row == line_diffs.deep_view());
        let mut line_offset = row_width(line_diffs);
        let mut after: usize = line_diffs.len();
        assert(row.take(row.len() as int) =~= row);
        while after > 0
            invariant
                rows == table.deep_view(),
                table_fits(rows),
                line_number < table@.len(),
                line_number <= match_line,
                line_number == above - 1,
                row == rows[line_number as int],
                row == line_diffs.deep_view(),
                after <= line_diffs@.len(),
                line_offset == line_width(row.take(after as int)),
                forall|line: int, j: int| #[trigger]
                    is_prev_candidate(rows, match_line as int, match_offset as int, line, j)
                        ==> line < line_number || (line == line_number && j < after),
            decreases after,
        {
            let k = after - 1;
            let diff = &line_diffs[k];
            assert(diff@ == row[k as int]);
            if diff.is_change() && (line_offset < match_offset || line_number < match_line) {
                assert(is_last_before(
                    rows,
                    match_line as int,
                    match_offset as int,
                    line_number as int,
                    k as int,
                ));
                assert(is_prev_hit(
                    rows,
                    match_line as int,
                    match_offset as int,
                    line_number as int,
                    line_offset as int,
                ));
                return Some((line_number, line_offset));
            }
            proof {
                lemma_width_step(row, k as int);
            }
            line_offset -= diff.left_len();
            after = k;
        }
        above = line_number;
    }
    None
}

/// The width of a prefix of a line does not shrink as the prefix grows.
pub proof fn lemma_width_monotone(line: Seq<SectionView>, j: int, k: int)
    requires
        0 <= j <= k <= line.len(),
    ensures
        line_width(line.take(j)) <= line_width(line.take(k)),
    decreases k - j,
{
    if j < k {
        lemma_width_monotone(line, j, k - 1);
        lemma_width_step(line, k - 1);
    }
}

/// The number of sections in all lines of `table`.
pub open spec fn section_count(table: Seq<Seq<SectionView>>) -> nat
    decreases table.len(),
{
    if table.len() == 0 {
        0
    } else {
        section_count(table.drop_last()) + table.last().len()
    }
}

/// The position of section `k` of line `line` when all sections of the table
/// are counted line by line.
pub open spec fn section_rank(table: Seq<Seq<SectionView>>, line: int, k: int) -> int {
    section_count(table.take(line)) + k
}

proof fn lemma_count_step(table: Seq<Seq<SectionView>>, line: int)
    requires
        0 <= line < table.len(),
    ensures
        section_count(table.take(line + 1)) == section_count(table.take(line))
            + table[line].len(),
{
    assert(table.take(line + 1).drop_last() =~= table.take(line));
    assert(table.take(line + 1).last() == table[line]);
}

proof fn lemma_count_monotone(table: Seq<Seq<SectionView>>, a: int, b: int)
    requires
        0 <= a <= b <= table.len(),
    ensures
        section_count(table.take(a)) <= section_count(table.take(b)),
    decreases b - a,
{
    if a < b {
        lemma_count_monotone(table, a, b - 1);
        lemma_count_step(table, b - 1);
    }
}

/// A section that stands before another has the smaller rank, and every rank
/// is below the number of sections.
pub proof fn lemma_rank_order(
    table: Seq<Seq<SectionView>>,
    line_a: int,
    k_a: int,
    line_b: int,
    k_b: int,
)
    requires
        0 <= line_a < table.len(),
        0 <= k_a < table[line_a].len(),
        0 <= line_b < table.len(),
        0 <= k_b < table[line_b].len(),
        not_after(line_a, k_a, line_b, k_b),
        !(line_a == line_b && k_a == k_b),
    ensures
        0 <= section_rank(table, line_a, k_a) < section_rank(table, line_b, k_b) < section_count(
            table,
        ),
{
    lemma_count_step(table, line_a);
    lemma_count_step(table, line_b);
    lemma_count_monotone(table, line_b + 1, table.len() as int);
    assert(table.take(table.len() as int) =~= table);
    if line_a < line_b {
        lemma_count_monotone(table, line_a + 1, line_b);
    }
}

/// A forward search has at most one result.
pub proof fn lemma_next_diff_unique(
    table: Seq<Seq<SectionView>>,
    from_line: int,
    from_offset: int,
    first: Option<(usize, usize)>,
    second: Option<(usize, usize)>,
)
    requires
        is_next_diff(table, from_line, from_offset, first),
        is_next_diff(table, from_line, from_offset, second),
    ensures
        first == second,
{
    if first is Some {
        let (line_a, offset_a) = first->0;
        let k_a = choose|k: int| #[trigger]
            is_first_after(table, from_line, from_offset, line_a as int, k) && offset_a
                == start_offset(table[line_a as int], k);
        assert(is_next_candidate(table, from_line, from_offset, line_a as int, k_a));
        if second is Some {
            let (line_b, offset_b) = second->0;
            let k_b = choose|k: int| #[trigger]
                is_first_after(table, from_line, from_offset, line_b as int, k) && offset_b
                    == start_offset(table[line_b as int], k);
            assert(is_next_candidate(table, from_line, from_offset, line_b as int, k_b));
            assert(not_after(line_a as int, k_a, line_b as int, k_b));
            assert(not_after(line_b as int, k_b, line_a as int, k_a));
        }
    } else if second is Some {
        let (line_b, offset_b) = second->0;
        let k_b = choose|k: int| #[trigger]
            is_first_after(table, from_line, from_offset, line_b as int, k) && offset_b
                == start_offset(table[line_b as int], k);
        assert(is_next_candidate(table, from_line, from_offset, line_b as int, k_b));
    }
}

/// A backward search has at most one result.
pub proof fn lemma_prev_diff_unique(
    table: Seq<Seq<SectionView>>,
    from_line: int,
    from_offset: int,
    first: Option<(usize, usize)>,
    second: Option<(usize, usize)>,
)
    requires
        is_prev_diff(table, from_line, from_offset, first),
        is_prev_diff(table, from_line, from_offset, second),
    ensures
        first == second,
{
    if first is Some {
        let (line_a, offset_a) = first->0;
        let k_a = choose|k: int| #[trigger]
            is_last_before(table, from_line, from_offset, line_a as int, k) && offset_a
                == end_offset(table[line_a as int], k);
        assert(is_prev_candidate(table, from_line, from_offset, line_a as int, k_a));
        if second is Some {
            let (line_b, offset_b) = second->0;
            let k_b = choose|k: int| #[trigger]
                is_last_before(table, from_line, from_offset, line_b as int, k) && offset_b
                    == end_offset(table[line_b as int], k);
            assert(is_prev_candidate(table, from_line, from_offset, line_b as int, k_b));
            assert(not_after(line_a as int, k_a, line_b as int, k_b));
            assert(not_after(line_b as int, k_b, line_a as int, k_a));
        }
    } else if second is Some {
        let (line_b, offset_b) = second->0;
        let k_b = choose|k: int| #[trigger]
            is_last_before(table, from_line, from_offset, line_b as int, k) && offset_b
                == end_offset(table[line_b as int], k);
        assert(is_prev_candidate(table, from_line, from_offset, line_b as int, k_b));
    }
}

/// Whether the position `(line_a, offset_a)` lies strictly before
/// `(line_b, offset_b)`.
pub open spec fn position_before(line_a: int, offset_a: int, line_b: int, offset_b: int) -> bool {
    line_a < line_b || (line_a == line_b && offset_a < offset_b)
}

/// The result of a forward search lies strictly after the cursor.
pub proof fn lemma_next_diff_advances(
    table: Seq<Seq<SectionView>>,
    from_line: int,
    from_offset: int,
    line: usize,
    offset: usize,
)
    requires
        is_next_diff(table, from_line, from_offset, Some((line, offset))),
    ensures
        position_before(from_line, from_offset, line as int, offset as int),
        line < table.len(),
{
    let k = choose|k: int| #[trigger]
        is_first_after(table, from_line, from_offset, line as int, k) && offset == start_offset(
            table[line as int],
            k,
        );
    assert(is_next_candidate(table, from_line, from_offset, line as int, k));
}

/// The result of a backward search lies strictly before the cursor.
pub proof fn lemma_prev_diff_retreats(
    table: Seq<Seq<SectionView>>,
    from_line: int,
    from_offset: int,
    line: usize,
    offset: usize,
)
    requires
        is_prev_diff(table, from_line, from_offset, Some((line, offset))),
    ensures
        position_before(line as int, offset as int, from_line, from_offset),
        line < table.len(),
{
    let k = choose|k: int| #[trigger]
        is_last_before(table, from_line, from_offset, line as int, k) && offset == end_offset(
            table[line as int],
            k,
        );
    assert(is_prev_candidate(table, from_line, from_offset, line as int, k));
}

/// The cursor from which stop `i` of a walk is searched: the start of the
/// walk for the first stop, the stop before it for every other.
pub open spec fn cursor_of(
    stops: Seq<(usize, usize)>,
    from_line: int,
    from_offset: int,
    i: int,
) -> (int, int) {
    if i == 0 {
        (from_line, from_offset)
    } else {
        (stops[i - 1].0 as int, stops[i - 1].1 as int)
    }
}

/// Whether `stops` are the results of repeated forward searches, the first
/// from the cursor `(from_line, from_offset)`, each other from the stop
/// before it.
pub open spec fn is_next_walk(
    table: Seq<Seq<SectionView>>,
    from_line: int,
    from_offset: int,
    stops: Seq<(usize, usize)>,
) -> bool {
    forall|i: int|
        0 <= i < stops.len() ==> is_next_diff(
            table,
            cursor_of(stops, from_line, from_offset, i).0,
            cursor_of(stops, from_line, from_offset, i).1,
            Some(#[trigger] stops[i]),
        )
}

/// Whether `stops` are the results of repeated backward searches, the first
/// from the cursor `(from_line, from_offset)`, each other from the stop
/// before it.
pub open spec fn is_prev_walk(
    table: Seq<Seq<SectionView>>,
    from_line: int,
    from_offset: int,
    stops: Seq<(usize, usize)>,
) -> bool {
    forall|i: int|
        0 <= i < stops.len() ==> is_prev_diff(
            table,
            cursor_of(stops, from_line, from_offset, i).0,
            cursor_of(stops, from_line, from_offset, i).1,
            Some(#[trigger] stops[i]),
        )
}

proof fn lemma_next_walk_rank(
    table: Seq<Seq<SectionView>>,
    from_line: int,
    from_offset: int,
    stops: Seq<(usize, usize)>,
    i: int,
) -> (k: int)
    requires
        is_next_walk(table, from_line, from_offset, stops),
        0 <= i < stops.len(),
    ensures
        0 <= stops[i].0 < table.len(),
        0 <= k < table[stops[i].0 as int].len(),
        stops[i].1 == start_offset(table[stops[i].0 as int], k),
        i <= section_rank(table, stops[i].0 as int, k) < section_count(table),
    decreases i,
{
    let (line, offset) = stops[i];
    let cursor = cursor_of(stops, from_line, from_offset, i);
    assert(is_next_diff(table, cursor.0, cursor.1, Some(stops[i])));
    let k = choose|k: int| #[trigger]
        is_first_after(table, cursor.0, cursor.1, line as int, k) && offset == start_offset(
            table[line as int],
            k,
        );
    assert(is_next_candidate(table, cursor.0, cursor.1, line as int, k));
    lemma_count_step(table, line as int);
    lemma_count_monotone(table, line + 1, table.len() as int);
    assert(table.take(table.len() as int) =~= table);
    if i > 0 {
        let before = lemma_next_walk_rank(table, from_line, from_offset, stops, i - 1);
        let line_before = stops[i - 1].0 as int;
        if line as int == line_before {
            if k <= before {
                lemma_width_monotone(table[line as int], k, before);
            }
        }
        lemma_rank_order(table, line_before, before, line as int, k);
    }
    k
}

proof fn lemma_prev_walk_rank(
    table: Seq<Seq<SectionView>>,
    from_line: int,
    from_offset: int,
    stops: Seq<(usize, usize)>,
    i: int,
) -> (k: int)
    requires
        is_prev_walk(table, from_line, from_offset, stops),
        0 <= i < stops.len(),
    ensures
        0 <= stops[i].0 < table.len(),
        0 <= k < table[stops[i].0 as int].len(),
        stops[i].1 == end_offset(table[stops[i].0 as int], k),
        0 <= section_rank(table, stops[i].0 as int, k) < section_count(table) - i,
    decreases i,
{
    let (line, offset) = stops[i];
    let cursor = cursor_of(stops, from_line, from_offset, i);
    assert(is_prev_diff(table, cursor.0, cursor.1, Some(stops[i])));
    let k = choose|k: int| #[trigger]
        is_last_before(table, cursor.0, cursor.1, line as int, k) && offset == end_offset(
            table[line as int],
            k,
        );
    assert(is_prev_candidate(table, cursor.0, cursor.1, line as int, k));
    lemma_count_step(table, line as int);
    lemma_count_monotone(table, line + 1, table.len() as int);
    assert(table.take(table.len() as int) =~= table);
    if i > 0 {
        let before = lemma_prev_walk_rank(table, from_line, from_offset, stops, i - 1);
        let line_before = stops[i - 1].0 as int;
        if line as int == line_before {
            if before <= k {
                lemma_width_monotone(table[line as int], before + 1, k + 1);
            }
        }
        lemma_rank_order(table, line as int, k, line_before, before);
    }
    k
}

/// Repeated forward searches, each from the result before it, move strictly
/// forward and give a result at most as often as the table has sections:
/// after that many the search finds nothing.
pub proof fn lemma_next_walk_ends(
    table: Seq<Seq<SectionView>>,
    from_line: int,
    from_offset: int,
    stops: Seq<(usize, usize)>,
)
    requires
        is_next_walk(table, from_line, from_offset, stops),
    ensures
        stops.len() <= section_count(table),
        forall|i: int|
            0 <= i < stops.len() ==> position_before(
                cursor_of(stops, from_line, from_offset, i).0,
                cursor_of(stops, from_line, from_offset, i).1,
                (#[trigger] stops[i]).0 as int,
                stops[i].1 as int,
            ),
{
    if stops.len() > 0 {
        lemma_next_walk_rank(table, from_line, from_offset, stops, stops.len() - 1);
    }
    assert forall|i: int| 0 <= i < stops.len() implies position_before(
        cursor_of(stops, from_line, from_offset, i).0,
        cursor_of(stops, from_line, from_offset, i).1,
        (#[trigger] stops[i]).0 as int,
        stops[i].1 as int,
    ) by {
        let cursor = cursor_of(stops, from_line, from_offset, i);
        lemma_next_diff_advances(table, cursor.0, cursor.1, stops[i].0, stops[i].1);
    }
}

/// Repeated backward searches, each from the result before it, move strictly
/// backward and give a result at most as often as the table has sections:
/// after that many the search finds nothing.
pub proof fn lemma_prev_walk_ends(
    table: Seq<Seq<SectionView>>,
    from_line: int,
    from_offset: int,
    stops: Seq<(usize, usize)>,
)
    requires
        is_prev_walk(table, from_line, from_offset, stops),
    ensures
        stops.len() <= section_count(table),
        forall|i: int|
            0 <= i < stops.len() ==> position_before(
                (#[trigger] stops[i]).0 as int,
                stops[i].1 as int,
                cursor_of(stops, from_line, from_offset, i).0,
                cursor_of(stops, from_line, from_offset, i).1,
            ),
{
    if stops.len() > 0 {
        lemma_prev_walk_rank(table, from_line, from_offset, stops, stops.len() - 1);
    }
    assert forall|i: int| 0 <= i < stops.len() implies position_before(
        (#[trigger] stops[i]).0 as int,
        stops[i].1 as int,
        cursor_of(stops, from_line, from_offset, i).0,
        cursor_of(stops, from_line, from_offset, i).1,
    ) by {
        let cursor = cursor_of(stops, from_line, from_offset, i);
        lemma_prev_diff_retreats(table, cursor.0, cursor.1, stops[i].0, stops[i].1);
    }
}

} // verus!
