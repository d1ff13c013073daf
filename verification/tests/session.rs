use trace_log_comparer::indexer::DiffPosition;
use trace_log_comparer::render::{Fragment, FragmentStyle};
use trace_log_comparer::section::DiffSection;
use trace_log_comparer::state::{longest_line_length, State};

fn lines(texts: &[&str]) -> Vec<String> {
    texts.iter().map(|text| text.to_string()).collect()
}

fn fragment(text: &str, style: FragmentStyle) -> Fragment {
    Fragment { text: text.to_string(), style }
}

fn position(line_index: usize) -> DiffPosition {
    DiffPosition { line_index, char_offset: 0, file1_byte_offset: 0, file2_byte_offset: 0 }
}

#[test]
fn new_state_has_nothing_loaded() {
    let state = State::new(None, vec![0, 2], vec![0, 2, 4]);
    assert_eq!(state.first_diff(), None);
    assert!(state.line_diffs().is_empty());
    assert_eq!(state.longest_line_length, 0);
    assert_eq!(state.selected_line, 0);
    assert!(state.file1_list_lines.is_empty());
    assert!(state.file2_list_lines.is_empty());
    assert_eq!(state.start_line(), 0);
    assert_eq!(state.find_next_diff(0, 0), None);
    assert_eq!(state.find_prev_diff(0, 0), None);
}

#[test]
fn start_line_is_the_line_of_the_first_difference() {
    let state = State::new(Some(position(17)), Vec::new(), Vec::new());
    assert_eq!(state.start_line(), 17);
    assert_eq!(state.first_diff(), Some(position(17)));
}

#[test]
fn build_state_loads_the_window() {
    let mut state = State::new(Some(position(1)), vec![0, 2, 4], vec![0, 2, 4]);
    state.build_state(&lines(&["a\n", "b\n", "c\n"]), &lines(&["a\n", "x\n", "c\n"]));
    assert_eq!(state.selected_line, 1);
    assert_eq!(state.longest_line_length, 2);
    assert_eq!(
        state.line_diffs(),
        &vec![
            vec![DiffSection::Same("a\n".to_string())],
            vec![
                DiffSection::Modified { left: "b".to_string(), right: "x".to_string() },
                DiffSection::Same("\n".to_string()),
            ],
            vec![DiffSection::Same("c\n".to_string())],
        ]
    );
    assert_eq!(
        state.file1_list_lines[1],
        vec![
            fragment("       2 ", FragmentStyle::Dim),
            fragment("b", FragmentStyle::Modified),
            fragment("\n", FragmentStyle::Plain),
        ]
    );
    assert_eq!(
        state.file2_list_lines[1],
        vec![
            fragment("       2 ", FragmentStyle::Dim),
            fragment("x", FragmentStyle::Modified),
            fragment("\n", FragmentStyle::Plain),
        ]
    );
    assert_eq!(state.find_next_diff(0, 0), Some((1, 0)));
    assert_eq!(state.find_next_diff(1, 0), None);
    assert_eq!(state.find_prev_diff(2, 0), Some((1, 1)));
}

#[test]
fn build_state_without_difference_keeps_the_selection() {
    let mut state = State::new(None, vec![0], vec![0]);
    state.selected_line = 5;
    state.build_state(&lines(&["same\n"]), &lines(&["same\n"]));
    assert_eq!(state.selected_line, 5);
    assert_eq!(state.find_next_diff(0, 0), None);
}

#[test]
fn build_lines_scrolls_and_renumbers() {
    let mut state = State::new(None, vec![0, 8], vec![0]);
    state.build_state(&lines(&["abcdefg\n", "second\n"]), &lines(&["abcdefg\n"]));
    state.build_lines(4, 41);
    assert_eq!(
        state.file1_list_lines,
        vec![
            vec![fragment("      41 ", FragmentStyle::Dim), fragment("efg\n", FragmentStyle::Plain)],
            vec![
                fragment("      42 ", FragmentStyle::Dim),
                fragment("nd\n", FragmentStyle::Removed),
            ],
        ]
    );
    assert_eq!(
        state.file2_list_lines,
        vec![
            vec![fragment("      41 ", FragmentStyle::Dim), fragment("efg\n", FragmentStyle::Plain)],
            vec![fragment("      42 ", FragmentStyle::Dim), fragment("EOF", FragmentStyle::Dim)],
        ]
    );
}

#[test]
fn calculate_diffs_pairs_the_lines() {
    let state = State::new(None, Vec::new(), Vec::new());
    assert_eq!(
        state.calculate_diffs(&lines(&["ab"]), &lines(&["ab", "cd"])),
        vec![
            vec![DiffSection::Same("ab".to_string())],
            vec![DiffSection::Added("cd".to_string())],
        ]
    );
}

#[test]
fn longest_line_is_measured_in_bytes_over_both_files() {
    assert_eq!(longest_line_length(&lines(&["a", "abc"]), &lines(&["ab"])), 3);
    assert_eq!(longest_line_length(&lines(&["a"]), &lines(&["ab", "abcd\n"])), 5);
    assert_eq!(longest_line_length(&lines(&["\u{4e16}\u{754c}"]), &lines(&["abcd"])), 6);
    assert_eq!(longest_line_length(&Vec::new(), &Vec::new()), 0);
    assert_eq!(longest_line_length(&lines(&[""]), &lines(&[""])), 0);
}
