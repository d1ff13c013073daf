use trace_log_comparer::indexer::{
    first_mismatch, index_lines, DiffPosition, LengthComparison, LineIndexer, DEFAULT_EXTRA_LINES,
};

fn lines(texts: &[&str]) -> Vec<String> {
    texts.iter().map(|text| text.to_string()).collect()
}

fn numbered(count: usize) -> Vec<String> {
    (0..count).map(|i| format!("line {}\n", i)).collect()
}

#[test]
fn default_budget_is_twenty_lines() {
    assert_eq!(DEFAULT_EXTRA_LINES, 20);
}

#[test]
fn index_finds_the_changed_line() {
    let file1 = lines(&["a\n", "b\n", "c\n"]);
    let file2 = lines(&["a\n", "x\n", "c\n"]);
    let index = index_lines(&file1, &file2, DEFAULT_EXTRA_LINES).unwrap();
    assert_eq!(
        index.first_diff,
        Some(DiffPosition {
            line_index: 1,
            char_offset: 0,
            file1_byte_offset: 2,
            file2_byte_offset: 2,
        })
    );
    assert_eq!(index.file1_line_positions, vec![0, 2, 4]);
    assert_eq!(index.file2_line_positions, vec![0, 2, 4]);
    assert_eq!(index.comparison, LengthComparison::Equal);
}

#[test]
fn index_of_identical_files_has_no_difference() {
    let file = numbered(7);
    let index = index_lines(&file, &file, DEFAULT_EXTRA_LINES).unwrap();
    assert_eq!(index.first_diff, None);
    assert_eq!(index.file1_line_positions.len(), 7);
    assert_eq!(index.file2_line_positions.len(), 7);
    assert_eq!(index.file1_line_positions, vec![0, 7, 14, 21, 28, 35, 42]);
    assert_eq!(index.comparison, LengthComparison::Equal);
}

#[test]
fn index_of_empty_files_is_empty() {
    let none: Vec<String> = Vec::new();
    let index = index_lines(&none, &none, DEFAULT_EXTRA_LINES).unwrap();
    assert_eq!(index.first_diff, None);
    assert!(index.file1_line_positions.is_empty());
    assert!(index.file2_line_positions.is_empty());
    assert_eq!(index.comparison, LengthComparison::Equal);
}

#[test]
fn index_locates_the_first_differing_character() {
    let file1 = lines(&["first\n", "second line\n", "third\n"]);
    let file2 = lines(&["first\n", "second lane\n", "thirst\n"]);
    let index = index_lines(&file1, &file2, DEFAULT_EXTRA_LINES).unwrap();
    let diff = index.first_diff.unwrap();
    assert_eq!(diff.line_index, 1);
    assert_eq!(diff.char_offset, 8);
    assert_eq!(diff.file1_byte_offset, 6);
    assert_eq!(diff.file2_byte_offset, 6);
}

#[test]
fn index_of_a_file_cut_off_in_a_line() {
    let file1 = lines(&["first\n", "sec"]);
    let file2 = lines(&["first\n", "second\n", "third\n"]);
    let index = index_lines(&file1, &file2, DEFAULT_EXTRA_LINES).unwrap();
    let diff = index.first_diff.unwrap();
    assert_eq!(diff.line_index, 1);
    assert_eq!(diff.char_offset, 3);
    assert_eq!(index.comparison, LengthComparison::File2Longer);
}

#[test]
fn index_counts_offsets_in_bytes_and_mismatches_in_characters() {
    let file1 = lines(&["h\u{e9}\n", "\u{4e16}\u{754c}a\n"]);
    let file2 = lines(&["h\u{e9}\n", "\u{4e16}\u{754c}b\n"]);
    let index = index_lines(&file1, &file2, DEFAULT_EXTRA_LINES).unwrap();
    assert_eq!(index.file1_line_positions, vec![0, 4]);
    assert_eq!(
        index.first_diff,
        Some(DiffPosition {
            line_index: 1,
            char_offset: 2,
            file1_byte_offset: 4,
            file2_byte_offset: 4,
        })
    );
}

#[test]
fn index_reports_the_longer_file() {
    let file1 = numbered(3);
    let file2 = numbered(5);
    let index = index_lines(&file1, &file2, DEFAULT_EXTRA_LINES).unwrap();
    assert_eq!(index.comparison, LengthComparison::File2Longer);
    assert_eq!(index.comparison.summary(), "File 2 is longer");
    assert_eq!(index.file1_line_positions.len(), 3);
    assert_eq!(index.file2_line_positions.len(), 5);
    assert_eq!(
        index.first_diff,
        Some(DiffPosition {
            line_index: 3,
            char_offset: 0,
            file1_byte_offset: 21,
            file2_byte_offset: 21,
        })
    );
    let swapped = index_lines(&file2, &file1, DEFAULT_EXTRA_LINES).unwrap();
    assert_eq!(swapped.comparison, LengthComparison::File1Longer);
    assert_eq!(swapped.comparison.summary(), "File 1 is longer");
}

#[test]
fn summary_of_equal_lengths() {
    assert_eq!(LengthComparison::Equal.summary(), "Both files are the same length");
}

#[test]
fn index_stops_when_the_extra_lines_are_used_up() {
    let file1 = numbered(4);
    let file2 = numbered(40);
    let index = index_lines(&file1, &file2, DEFAULT_EXTRA_LINES).unwrap();
    assert_eq!(index.file1_line_positions.len(), 4);
    assert_eq!(index.file2_line_positions.len(), 24);
    assert_eq!(index.comparison, LengthComparison::File2Longer);
    assert_eq!(index.first_diff.unwrap().line_index, 4);
}

#[test]
fn index_without_extra_lines_stops_at_the_shorter_file() {
    let file1 = numbered(6);
    let file2 = numbered(2);
    let index = index_lines(&file1, &file2, 0).unwrap();
    assert_eq!(index.file1_line_positions.len(), 2);
    assert_eq!(index.file2_line_positions.len(), 2);
    assert_eq!(index.first_diff, None);
    assert_eq!(index.comparison, LengthComparison::File1Longer);
}

#[test]
fn offsets_never_decrease() {
    let file1 = lines(&["a\n", "bb\n", "\n", "dddd\n", "e"]);
    let file2 = lines(&["a\n", "bb\n"]);
    let index = index_lines(&file1, &file2, DEFAULT_EXTRA_LINES).unwrap();
    assert_eq!(index.file1_line_positions, vec![0, 2, 5, 6, 11]);
    for pair in index.file1_line_positions.windows(2) {
        assert!(pair[0] <= pair[1]);
    }
}

#[test]
fn indexer_takes_lines_step_by_step() {
    let mut indexer = LineIndexer::new(1);
    assert!(indexer.can_step("a\n", "a\n"));
    assert!(indexer.step("a\n", "a\n"));
    assert!(indexer.step("b\n", "c\n"));
    assert!(indexer.step("d\n", ""));
    assert!(!indexer.step("e\n", ""));
    let index = indexer.finish();
    assert_eq!(index.file1_line_positions, vec![0, 2, 4]);
    assert_eq!(index.file2_line_positions, vec![0, 2]);
    assert_eq!(
        index.first_diff,
        Some(DiffPosition {
            line_index: 1,
            char_offset: 0,
            file1_byte_offset: 2,
            file2_byte_offset: 2,
        })
    );
    assert_eq!(index.comparison, LengthComparison::File1Longer);
}

#[test]
fn indexer_stops_when_both_files_have_ended() {
    let mut indexer = LineIndexer::new(DEFAULT_EXTRA_LINES);
    assert!(indexer.step("only\n", "only\n"));
    assert!(!indexer.step("", ""));
    let index = indexer.finish();
    assert_eq!(index.first_diff, None);
    assert_eq!(index.file1_line_positions, vec![0]);
    assert_eq!(index.comparison, LengthComparison::Equal);
}

#[test]
fn first_mismatch_of_equal_lines_is_nothing() {
    assert_eq!(first_mismatch("same\n", "same\n"), None);
    assert_eq!(first_mismatch("", ""), None);
}

#[test]
fn first_mismatch_is_the_first_differing_character() {
    assert_eq!(first_mismatch("abcdef", "abcxef"), Some(3));
    assert_eq!(first_mismatch("x", "y"), Some(0));
    assert_eq!(first_mismatch("\u{e9}\u{e9}a", "\u{e9}\u{e9}b"), Some(2));
}

#[test]
fn first_mismatch_is_the_length_of_a_line_that_starts_the_other() {
    assert_eq!(first_mismatch("abc", "abcdef"), Some(3));
    assert_eq!(first_mismatch("abcdef", "abc"), Some(3));
    assert_eq!(first_mismatch("", "abc"), Some(0));
}
