use trace_log_comparer::input::{Command, Key, ViewState};
use trace_log_comparer::render::{Fragment, FragmentStyle};
use trace_log_comparer::state::{KeyOutcome, State};

fn lines(texts: &[&str]) -> Vec<String> {
    texts.iter().map(|text| text.to_string()).collect()
}

fn loaded() -> State {
    let mut state = State::new(None, vec![0, 31, 62], vec![0, 31, 62]);
    state.build_state(
        &lines(&[
            "0123456789abcdefghijklmnopqrst\n",
            "0123456789abcdefghijklmnopqrst\n",
            "short\n",
        ]),
        &lines(&[
            "0123456789abcdefghijklmnopqrst\n",
            "0123456789abcdefghijXXmnopqrst\n",
            "shirt\n",
        ]),
    );
    state
}

fn press(state: &mut State, view: &mut ViewState, key: Key, times: usize) {
    for _ in 0..times {
        let outcome = state.handle_key(view, key);
        assert!(!outcome.quit);
    }
}

#[test]
fn keys_are_mapped_to_commands() {
    assert_eq!(Key::Right.command(), Command::ScrollRight);
    assert_eq!(Key::Left.command(), Command::ScrollLeft);
    assert_eq!(Key::Down.command(), Command::LineDown);
    assert_eq!(Key::Up.command(), Command::LineUp);
    assert_eq!(Key::Esc.command(), Command::Quit);
    assert_eq!(Key::Char('N').command(), Command::PrevDiff);
    assert_eq!(Key::Char('n').command(), Command::NextDiff);
    assert_eq!(Key::Char('$').command(), Command::EndOfLine);
    assert_eq!(Key::Char('^').command(), Command::StartOfLine);
    assert_eq!(Key::Char('x').command(), Command::Nothing);
    assert_eq!(Key::Other(3).command(), Command::Nothing);
}

#[test]
fn new_view_is_unscrolled() {
    let view = ViewState::new();
    assert_eq!(view.horizontal_offset, 0);
    assert_eq!(view.selected_diff_offset, 0);
    assert_eq!(view.first_line_index, 0);
    assert_eq!(view.last_key, None);
    assert_eq!(view.key_repeat_count, 0);
}

#[test]
fn a_key_scrolls_by_one_until_it_is_held() {
    let mut view = ViewState::new();
    assert_eq!(view.count_key(Key::Right), 1);
    assert_eq!(view.key_repeat_count, 0);
    view.last_key = Some(Key::Right);
    for count in 1..=5 {
        assert_eq!(view.count_key(Key::Right), 1);
        assert_eq!(view.key_repeat_count, count);
    }
    assert_eq!(view.count_key(Key::Right), 5);
    assert_eq!(view.key_repeat_count, 5);
    assert_eq!(view.count_key(Key::Left), 1);
    assert_eq!(view.key_repeat_count, 5);
}

#[test]
fn a_pause_ends_the_repeats() {
    let mut view = ViewState::new();
    view.last_key = Some(Key::Right);
    view.key_repeat_count = 5;
    view.horizontal_offset = 7;
    view.idle();
    assert_eq!(view.last_key, None);
    assert_eq!(view.key_repeat_count, 0);
    assert_eq!(view.horizontal_offset, 7);
    assert_eq!(view.count_key(Key::Right), 1);
}

#[test]
fn right_scrolls_up_to_the_margin() {
    let mut state = loaded();
    let mut view = ViewState::new();
    assert_eq!(state.longest_line_length, 31);
    press(&mut state, &mut view, Key::Right, 1);
    assert_eq!(view.horizontal_offset, 1);
    assert_eq!(view.last_key, Some(Key::Right));
    assert_eq!(state.file1_list_lines[2][1].text, "h");
    assert_eq!(state.file1_list_lines[2][2].text, "o");
    assert_eq!(state.file2_list_lines[2][2].text, "i");
    press(&mut state, &mut view, Key::Right, 5);
    assert_eq!(view.horizontal_offset, 6);
    press(&mut state, &mut view, Key::Right, 2);
    assert_eq!(view.horizontal_offset, 16);
    press(&mut state, &mut view, Key::Right, 1);
    assert_eq!(view.horizontal_offset, 16);
    view.idle();
    press(&mut state, &mut view, Key::Right, 4);
    assert_eq!(view.horizontal_offset, 20);
    press(&mut state, &mut view, Key::Right, 3);
    assert_eq!(view.horizontal_offset, 20);
}

#[test]
fn left_scrolls_down_to_zero() {
    let mut state = loaded();
    let mut view = ViewState::new();
    view.horizontal_offset = 8;
    press(&mut state, &mut view, Key::Left, 6);
    assert_eq!(view.horizontal_offset, 2);
    press(&mut state, &mut view, Key::Left, 1);
    assert_eq!(view.horizontal_offset, 0);
    assert_eq!(state.file1_list_lines[2][1].text, "sh");
    assert_eq!(state.file1_list_lines[2][0].text, "       3 ");
}

#[test]
fn end_and_start_of_line() {
    let mut state = loaded();
    let mut view = ViewState::new();
    press(&mut state, &mut view, Key::Char('$'), 1);
    assert_eq!(view.horizontal_offset, 21);
    assert_eq!(
        state.file1_list_lines[2],
        vec![
            Fragment { text: "       3 ".to_string(), style: FragmentStyle::Dim },
            Fragment { text: "<==".to_string(), style: FragmentStyle::Dim },
        ]
    );
    press(&mut state, &mut view, Key::Char('^'), 1);
    assert_eq!(view.horizontal_offset, 0);
}

#[test]
fn down_and_up_move_the_selection() {
    let mut state = loaded();
    let mut view = ViewState::new();
    press(&mut state, &mut view, Key::Up, 1);
    assert_eq!(state.selected_line, 0);
    press(&mut state, &mut view, Key::Down, 2);
    assert_eq!(state.selected_line, 2);
    press(&mut state, &mut view, Key::Down, 5);
    assert_eq!(state.selected_line, 3);
    press(&mut state, &mut view, Key::Up, 1);
    assert_eq!(state.selected_line, 2);
}

#[test]
fn next_and_previous_difference() {
    let mut state = loaded();
    let mut view = ViewState::new();
    let outcome = state.handle_key(&mut view, Key::Char('n'));
    assert_eq!(outcome, KeyOutcome { quit: false, jump: Some((1, 20)) });
    assert_eq!(state.selected_line, 1);
    assert_eq!(view.selected_diff_offset, 20);
    assert_eq!(view.horizontal_offset, 15);
    assert_eq!(state.file2_list_lines[1][0].text, "       1 ");
    assert_eq!(state.file2_list_lines[1][1].text, "fghij");
    assert_eq!(state.file2_list_lines[1][2].text, "XX");
    let outcome = state.handle_key(&mut view, Key::Char('n'));
    assert_eq!(outcome.jump, Some((2, 2)));
    assert_eq!(view.horizontal_offset, 0);
    let outcome = state.handle_key(&mut view, Key::Char('n'));
    assert_eq!(outcome.jump, None);
    assert_eq!(state.selected_line, 2);
    assert_eq!(view.selected_diff_offset, 2);
    let outcome = state.handle_key(&mut view, Key::Char('N'));
    assert_eq!(outcome.jump, Some((1, 22)));
    assert_eq!(state.selected_line, 1);
    assert_eq!(view.horizontal_offset, 17);
    let outcome = state.handle_key(&mut view, Key::Char('N'));
    assert_eq!(outcome.jump, None);
}

#[test]
fn escape_quits_and_changes_nothing_else() {
    let mut state = loaded();
    let mut view = ViewState::new();
    press(&mut state, &mut view, Key::Right, 1);
    let before = view;
    let outcome = state.handle_key(&mut view, Key::Esc);
    assert_eq!(outcome, KeyOutcome { quit: true, jump: None });
    assert_eq!(view, before);
}

#[test]
fn other_keys_are_remembered_but_do_nothing() {
    let mut state = loaded();
    let mut view = ViewState::new();
    let outcome = state.handle_key(&mut view, Key::Other(9));
    assert_eq!(outcome, KeyOutcome { quit: false, jump: None });
    assert_eq!(view.last_key, Some(Key::Other(9)));
    assert_eq!(view.horizontal_offset, 0);
    assert_eq!(state.selected_line, 0);
}
