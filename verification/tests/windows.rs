use trace_log_comparer::indexer::{index_lines, DEFAULT_EXTRA_LINES};
use trace_log_comparer::window::window_offsets;
use trace_log_comparer::State;

fn positions(count: usize) -> Vec<usize> {
    (0..count).map(|i| i * 10).collect()
}

#[test]
fn window_lies_around_the_centre() {
    assert_eq!(window_offsets(&positions(20), 10, 4), vec![80, 90, 100, 110]);
    assert_eq!(window_offsets(&positions(20), 10, 5), vec![80, 90, 100, 110, 120]);
}

#[test]
fn window_does_not_start_below_line_zero() {
    assert_eq!(window_offsets(&positions(20), 1, 6), vec![0, 10, 20, 30, 40, 50]);
    assert_eq!(window_offsets(&positions(20), 0, 3), vec![0, 10, 20]);
    assert_eq!(window_offsets(&positions(20), 3, 6), vec![0, 10, 20, 30, 40, 50]);
}

#[test]
fn window_ends_with_the_file() {
    assert_eq!(window_offsets(&positions(5), 4, 4), vec![20, 30, 40]);
    assert_eq!(window_offsets(&positions(5), 6, 4), vec![40]);
    assert_eq!(window_offsets(&positions(3), 6, 4), Vec::<usize>::new());
}

#[test]
fn window_of_no_lines_is_empty() {
    assert_eq!(window_offsets(&positions(5), 2, 0), Vec::<usize>::new());
    assert_eq!(window_offsets(&Vec::new(), 0, 10), Vec::<usize>::new());
}

#[test]
fn window_copes_with_the_largest_numbers() {
    assert_eq!(window_offsets(&positions(3), usize::MAX, usize::MAX), Vec::<usize>::new());
    assert_eq!(window_offsets(&positions(3), 1, usize::MAX), vec![0, 10, 20]);
    assert_eq!(window_offsets(&positions(3), usize::MAX, 2), Vec::<usize>::new());
}

#[test]
fn window_past_the_shorter_file_holds_lines_of_the_longer_one_only() {
    let file1: Vec<String> = (0..3).map(|i| format!("line {}\n", i)).collect();
    let file2: Vec<String> = (0..5).map(|i| format!("line {}\n", i)).collect();
    let index = index_lines(&file1, &file2, DEFAULT_EXTRA_LINES).unwrap();
    let state = State::new(index.first_diff, index.file1_line_positions, index.file2_line_positions);
    let (offsets1, offsets2) = state.get_lines_around_line(6, 4);
    assert!(offsets1.len() < 4);
    assert!(offsets2.len() <= 4);
    assert_eq!(offsets1, Vec::<usize>::new());
    assert_eq!(offsets2, vec![28]);
    let (offsets1, offsets2) = state.get_lines_around_line(3, 4);
    assert_eq!(offsets1, vec![7, 14]);
    assert_eq!(offsets2, vec![7, 14, 21, 28]);
}
