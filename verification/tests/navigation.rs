use trace_log_comparer::navigate::{find_next_diff, find_prev_diff};
use trace_log_comparer::section::DiffSection;
use trace_log_comparer::diff_line_pairs;

fn table() -> Vec<Vec<DiffSection>> {
    let lines1: Vec<String> =
        ["same line\n", "abXdeYZ\n", "same too\n", "tail\n", "only left\n"]
            .iter()
            .map(|line| line.to_string())
            .collect();
    let lines2: Vec<String> = ["same line\n", "ab1de23\n", "same too\n", "tail and more\n"]
        .iter()
        .map(|line| line.to_string())
        .collect();
    diff_line_pairs(&lines1, &lines2)
}

#[test]
fn next_diff_skips_lines_without_changes() {
    assert_eq!(find_next_diff(&table(), 0, 0), Some((1, 2)));
}

#[test]
fn next_diff_on_the_cursor_line_lies_beyond_the_offset() {
    assert_eq!(find_next_diff(&table(), 1, 0), Some((1, 2)));
    assert_eq!(find_next_diff(&table(), 1, 2), Some((1, 5)));
    assert_eq!(find_next_diff(&table(), 1, 4), Some((1, 5)));
}

#[test]
fn next_diff_moves_on_to_later_lines() {
    assert_eq!(find_next_diff(&table(), 1, 5), Some((3, 4)));
    assert_eq!(find_next_diff(&table(), 2, 100), Some((3, 4)));
    assert_eq!(find_next_diff(&table(), 3, 4), Some((3, 5)));
    assert_eq!(find_next_diff(&table(), 3, 5), Some((4, 0)));
}

#[test]
fn next_diff_finds_a_change_at_offset_zero_only_on_later_lines() {
    assert_eq!(find_next_diff(&table(), 4, 0), None);
    assert_eq!(find_next_diff(&table(), 3, 100), Some((4, 0)));
}

#[test]
fn next_diff_past_the_table_finds_nothing() {
    assert_eq!(find_next_diff(&table(), 5, 0), None);
    assert_eq!(find_next_diff(&table(), 100, 0), None);
    assert_eq!(find_next_diff(&Vec::new(), 0, 0), None);
}

#[test]
fn repeated_next_diff_moves_strictly_forward_and_ends() {
    let table = table();
    let mut cursor = (0usize, 0usize);
    let mut stops = Vec::new();
    while let Some(next) = find_next_diff(&table, cursor.0, cursor.1) {
        assert!(next > cursor);
        stops.push(next);
        cursor = next;
        assert!(stops.len() <= 16);
    }
    assert_eq!(stops, vec![(1, 2), (1, 5), (3, 4), (3, 5), (4, 0)]);
}

#[test]
fn prev_diff_reports_where_the_section_ends() {
    assert_eq!(find_prev_diff(&table(), 2, 0), Some((1, 7)));
    assert_eq!(find_prev_diff(&table(), 1, 7), Some((1, 3)));
}

#[test]
fn prev_diff_on_the_cursor_line_lies_before_the_offset() {
    assert_eq!(find_prev_diff(&table(), 1, 8), Some((1, 7)));
    assert_eq!(find_prev_diff(&table(), 1, 4), Some((1, 3)));
    assert_eq!(find_prev_diff(&table(), 1, 3), None);
}

#[test]
fn prev_diff_moves_back_to_earlier_lines() {
    assert_eq!(find_prev_diff(&table(), 4, 0), Some((3, 14)));
    assert_eq!(find_prev_diff(&table(), 3, 0), Some((1, 7)));
    assert_eq!(find_prev_diff(&table(), 0, 100), None);
}

#[test]
fn prev_diff_past_the_table_starts_at_the_last_line() {
    assert_eq!(find_prev_diff(&table(), 100, 0), Some((4, 10)));
    assert_eq!(find_prev_diff(&Vec::new(), 3, 3), None);
}

#[test]
fn repeated_prev_diff_moves_strictly_backward_and_ends() {
    let table = table();
    let mut cursor = (table.len(), 0usize);
    let mut stops = Vec::new();
    while let Some(prev) = find_prev_diff(&table, cursor.0, cursor.1) {
        assert!(prev < cursor);
        stops.push(prev);
        cursor = prev;
        assert!(stops.len() <= 16);
    }
    assert_eq!(stops, vec![(4, 10), (3, 14), (3, 5), (1, 7), (1, 3)]);
}

#[test]
fn navigation_over_an_unchanged_table_finds_nothing() {
    let lines: Vec<String> = vec!["a\n".to_string(), "b\n".to_string()];
    let table = diff_line_pairs(&lines, &lines);
    assert_eq!(find_next_diff(&table, 0, 0), None);
    assert_eq!(find_prev_diff(&table, 1, 2), None);
}
