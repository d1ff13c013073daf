use trace_log_comparer::label::line_number_label;
use trace_log_comparer::render::{
    add_left_placeholder, build_lines, build_spans, is_blank, spans_substring, Fragment,
    FragmentStyle,
};
use trace_log_comparer::{diff_line_pairs, diff_lines};

fn fragment(text: &str, style: FragmentStyle) -> Fragment {
    Fragment { text: text.to_string(), style }
}

fn plain(text: &str) -> Fragment {
    fragment(text, FragmentStyle::Plain)
}

fn dim(text: &str) -> Fragment {
    fragment(text, FragmentStyle::Dim)
}

#[test]
fn spans_split_a_table_into_its_two_sides() {
    let table = vec![diff_lines("abXd", "ab1dZZ")];
    let (left, right) = build_spans(&table);
    assert_eq!(
        left,
        vec![vec![plain("ab"), fragment("X", FragmentStyle::Modified), plain("d")]]
    );
    assert_eq!(
        right,
        vec![vec![
            plain("ab"),
            fragment("1", FragmentStyle::Modified),
            plain("d"),
            fragment("ZZ", FragmentStyle::Added),
        ]]
    );
}

#[test]
fn spans_of_lines_without_partner_leave_the_other_side_empty() {
    let lines1 = vec!["a\n".to_string(), "b\n".to_string()];
    let lines2 = vec!["a\n".to_string()];
    let (left, right) = build_spans(&diff_line_pairs(&lines1, &lines2));
    assert_eq!(left, vec![vec![plain("a\n")], vec![fragment("b\n", FragmentStyle::Removed)]]);
    assert_eq!(right, vec![vec![plain("a\n")], vec![]]);
    let (left, right) = build_spans(&diff_line_pairs(&lines2, &lines1));
    assert_eq!(left, vec![vec![plain("a\n")], vec![]]);
    assert_eq!(right, vec![vec![plain("a\n")], vec![fragment("b\n", FragmentStyle::Added)]]);
}

#[test]
fn spans_of_an_empty_table_are_empty() {
    let (left, right) = build_spans(&Vec::new());
    assert!(left.is_empty());
    assert!(right.is_empty());
}

fn sample() -> Vec<Fragment> {
    vec![plain("abc"), fragment("de", FragmentStyle::Modified), plain("fgh\n")]
}

#[test]
fn substring_from_zero_is_the_whole_line() {
    assert_eq!(spans_substring(&sample(), 0), sample());
}

#[test]
fn substring_cuts_the_fragment_that_the_offset_falls_into() {
    assert_eq!(
        spans_substring(&sample(), 1),
        vec![plain("bc"), fragment("de", FragmentStyle::Modified), plain("fgh\n")]
    );
    assert_eq!(
        spans_substring(&sample(), 4),
        vec![fragment("e", FragmentStyle::Modified), plain("fgh\n")]
    );
}

#[test]
fn substring_drops_a_fragment_that_ends_at_the_offset() {
    assert_eq!(
        spans_substring(&sample(), 3),
        vec![fragment("de", FragmentStyle::Modified), plain("fgh\n")]
    );
    assert_eq!(spans_substring(&sample(), 5), vec![plain("fgh\n")]);
}

#[test]
fn substring_past_the_line_is_empty() {
    assert_eq!(spans_substring(&sample(), 9), Vec::<Fragment>::new());
    assert_eq!(spans_substring(&sample(), 100), Vec::<Fragment>::new());
    assert_eq!(spans_substring(&Vec::new(), 3), Vec::<Fragment>::new());
}

#[test]
fn substring_counts_characters() {
    let line = vec![plain("h\u{e9}llo"), fragment("\u{4e16}\u{754c}", FragmentStyle::Added)];
    assert_eq!(
        spans_substring(&line, 2),
        vec![plain("llo"), fragment("\u{4e16}\u{754c}", FragmentStyle::Added)]
    );
    assert_eq!(spans_substring(&line, 6), vec![fragment("\u{754c}", FragmentStyle::Added)]);
}

#[test]
fn substring_holds_the_text_from_the_offset_on() {
    let whole: String = sample().iter().map(|f| f.text.clone()).collect();
    for offset in 0..12 {
        let shown: String =
            spans_substring(&sample(), offset).iter().map(|f| f.text.clone()).collect();
        let expected: String = whole.chars().skip(offset).collect();
        assert_eq!(shown, expected);
    }
}

#[test]
fn blank_lines_take_no_column() {
    assert!(is_blank(&Vec::new()));
    assert!(is_blank(&vec![plain("")]));
    assert!(is_blank(&vec![plain("\n")]));
    assert!(is_blank(&vec![plain(""), fragment("\n", FragmentStyle::Added)]));
}

#[test]
fn lines_with_text_are_not_blank() {
    assert!(!is_blank(&vec![plain("a")]));
    assert!(!is_blank(&vec![plain(""), plain(" ")]));
    assert!(!is_blank(&vec![plain("\n"), fragment("\u{4e16}", FragmentStyle::Removed)]));
}

#[test]
fn placeholder_marks_the_end_of_a_file() {
    assert_eq!(add_left_placeholder(Vec::new(), true, true), vec![dim("EOF")]);
    assert_eq!(add_left_placeholder(sample(), true, false), vec![dim("EOF")]);
}

#[test]
fn placeholder_marks_text_left_of_the_view() {
    assert_eq!(add_left_placeholder(Vec::new(), false, true), vec![dim("<==")]);
}

#[test]
fn placeholder_leaves_visible_text_alone() {
    assert_eq!(add_left_placeholder(sample(), false, false), sample());
}

#[test]
fn label_is_right_aligned_in_eight_columns() {
    assert_eq!(line_number_label(0), "       0 ");
    assert_eq!(line_number_label(1), "       1 ");
    assert_eq!(line_number_label(42), "      42 ");
    assert_eq!(line_number_label(1234567), " 1234567 ");
    assert_eq!(line_number_label(12345678), "12345678 ");
}

#[test]
fn label_of_a_long_number_is_not_cut() {
    assert_eq!(line_number_label(123456789), "123456789 ");
    assert_eq!(
        line_number_label(u128::MAX),
        "340282366920938463463374607431768211455 "
    );
}

#[test]
fn lines_get_their_number_in_front() {
    let spans = vec![vec![plain("abc\n")], vec![plain("de"), fragment("f\n", FragmentStyle::Removed)]];
    let (left, right) = build_lines(&spans, &Vec::new(), 0, 1);
    assert_eq!(
        left,
        vec![
            vec![dim("       1 "), plain("abc\n")],
            vec![dim("       2 "), plain("de"), fragment("f\n", FragmentStyle::Removed)],
        ]
    );
    assert!(right.is_empty());
}

#[test]
fn lines_are_cut_and_replaced_where_nothing_shows() {
    let spans = vec![
        vec![plain("abcdef\n")],
        vec![plain("abc\n")],
        vec![plain("ab")],
        vec![],
        vec![plain("\n")],
    ];
    let (left, right) = build_lines(&spans, &spans, 3, 98);
    assert_eq!(
        left,
        vec![
            vec![dim("      98 "), plain("def\n")],
            vec![dim("      99 "), dim("<==")],
            vec![dim("     100 "), dim("<==")],
            vec![dim("     101 "), dim("EOF")],
            vec![dim("     102 "), dim("EOF")],
        ]
    );
    assert_eq!(right, left);
}

#[test]
fn line_numbers_do_not_overflow() {
    let spans = vec![vec![plain("a")], vec![plain("b")]];
    let (left, _) = build_lines(&spans, &Vec::new(), usize::MAX, usize::MAX);
    assert_eq!(left.len(), 2);
    assert_eq!(left[0][0].text, format!("{} ", usize::MAX));
    assert_eq!(left[1][0].text, format!("{} ", usize::MAX as u128 + 1));
    assert_eq!(left[0][1], dim("<=="));
}
