//! Keyboard input: what each key asks for, how fast a held key scrolls, and
//! where the view stands after a key.
//!
//! The library decides; reading the keys and drawing the lists is left to
//! the caller.

use vstd::prelude::*;

verus! {

/// Number of repeats of one key after which the key counts as held.
pub const REPEAT_THRESHOLD: usize = 5;

/// Number of characters that a held key scrolls at once.
pub const FAST_STEP: usize = 5;

/// Number of characters of the longest line that stay in view when the view
/// is scrolled to the right end.
pub const SCROLL_MARGIN: usize = 10;

/// Number of characters that stay in view left of a difference that was
/// jumped to.
pub const JUMP_MARGIN: usize = 5;

/// A key of the keyboard.
#[derive(Clone, Copy, Debug, PartialEq, Eq, Structural)]
pub enum Key {
    Right,
    Left,
    Down,
    Up,
    Esc,
    /// A key that gives a character.
    Char(char),
    /// Any other key, told apart by a number.
    Other(u32),
}

/// What a key asks for.
#[derive(Clone, Copy, Debug, PartialEq, Eq, Structural)]
pub enum Command {
    ScrollRight,
    ScrollLeft,
    LineDown,
    LineUp,
    PrevDiff,
    NextDiff,
    EndOfLine,
    StartOfLine,
    Quit,
    Nothing,
}

/// Where the view stands between two keys.
#[derive(Clone, Copy, Debug, PartialEq, Eq)]
pub struct ViewState {
    /// The character offset from which lines are shown.
    pub horizontal_offset: usize,
    /// The offset of the difference that was jumped to last.
    pub selected_diff_offset: usize,
    /// The index of the first line that is loaded.
    pub first_line_index: usize,
    /// The key that came last, if no pause followed it.
    pub last_key: Option<Key>,
    /// How often a key has repeated the one before it since the last pause.
    pub key_repeat_count: usize,
}

/// What a key asks for: the arrows scroll and move the selection, `n` and
/// `N` jump to the next and the previous difference, `$` and `^` scroll to
/// the end and the start of the line, and escape quits.
pub open spec fn command_spec(key: Key) -> Command {
    match key {
        Key::Right => Command::ScrollRight,
        Key::Left => Command::ScrollLeft,
        Key::Down => Command::LineDown,
        Key::Up => Command::LineUp,
        Key::Esc => Command::Quit,
        Key::Char(c) => if c == 'N' {
            Command::PrevDiff
        } else if c == 'n' {
            Command::NextDiff
        } else if c == '$' {
            Command::EndOfLine
        } else if c == '^' {
            Command::StartOfLine
        } else {
            Command::Nothing
        },
        Key::Other(_) => Command::Nothing,
    }
}

/// Whether `key` repeats the key before it.
pub open spec fn repeats_last(view: ViewState, key: Key) -> bool {
    view.last_key == Some(key)
}

/// Whether `key` counts as held: it repeats the key before it, and keys have
/// repeated often enough before.
pub open spec fn is_held(view: ViewState, key: Key) -> bool {
    repeats_last(view, key) && view.key_repeat_count >= REPEAT_THRESHOLD
}

/// The repeat count after `key`: one more where the key repeats the one
/// before it and does not yet count as held.
pub open spec fn count_after(view: ViewState, key: Key) -> usize {
    if repeats_last(view, key) && view.key_repeat_count < REPEAT_THRESHOLD {
        (view.key_repeat_count + 1) as usize
    } else {
        view.key_repeat_count
    }
}

/// The number of characters that `key` scrolls.
pub open spec fn step_size(view: ViewState, key: Key) -> usize {
    if is_held(view, key) {
        FAST_STEP
    } else {
        1
    }
}

/// The largest offset that the view scrolls to of itself: the length of the
/// longest line less the margin.
pub open spec fn scroll_limit(longest_line_length: usize) -> usize {
    if longest_line_length > SCROLL_MARGIN {
        (longest_line_length - SCROLL_MARGIN) as usize
    } else {
        0
    }
}

/// The offset from which lines are shown after a jump to a difference at
/// `diff_offset`: the margin left of the difference.
pub open spec fn jump_offset(diff_offset: usize) -> usize {
    if diff_offset > JUMP_MARGIN {
        (diff_offset - JUMP_MARGIN) as usize
    } else {
        0
    }
}

/// The offset from which lines are shown after `key`, where `jump` is the
/// difference that the key found.
pub open spec fn offset_after(
    view: ViewState,
    key: Key,
    longest_line_length: usize,
    jump: Option<(usize, usize)>,
) -> usize {
    let step = step_size(view, key);
    let limit = scroll_limit(longest_line_length);
    match command_spec(key) {
        Command::ScrollRight => if view.horizontal_offset + step < limit {
            (view.horizontal_offset + step) as usize
        } else {
            view.horizontal_offset
        },
        Command::ScrollLeft => if view.horizontal_offset >= step {
            (view.horizontal_offset - step) as usize
        } else {
            0
        },
        Command::EndOfLine => limit,
        Command::StartOfLine => 0,
        Command::PrevDiff | Command::NextDiff => match jump {
            Some((_, diff_offset)) => jump_offset(diff_offset),
            None => view.horizontal_offset,
        },
        _ => view.horizontal_offset,
    }
}

/// The line that is selected after `key`: the next one down while the
/// selection lies within the longer list, the next one up while it is not
/// the first, or the line of the difference that the key found.
pub open spec fn selected_after(
    selected_line: usize,
    key: Key,
    list1_len: nat,
    list2_len: nat,
    jump: Option<(usize, usize)>,
) -> usize {
    match command_spec(key) {
        Command::LineDown => if selected_line < list1_len || selected_line < list2_len {
            (selected_line + 1) as usize
        } else {
            selected_line
        },
        Command::LineUp => if selected_line > 0 {
            (selected_line - 1) as usize
        } else {
            selected_line
        },
        Command::PrevDiff | Command::NextDiff => match jump {
            Some((line, _)) => line,
            None => selected_line,
        },
        _ => selected_line,
    }
}

/// The line number that the list lines are numbered from after `key`, or
/// nothing where the key leaves the lists as they are.
///
/// Scrolling numbers the lines from one past the index of the first loaded
/// line, a jump from that index itself. A scroll to the right that does not
/// move leaves the lists alone.
pub open spec fn renumbered_from(
    view: ViewState,
    key: Key,
    longest_line_length: usize,
    jump: Option<(usize, usize)>,
) -> Option<nat> {
    match command_spec(key) {
        Command::ScrollRight => if view.horizontal_offset + step_size(view, key) < scroll_limit(
            longest_line_length,
        ) {
            Some((view.first_line_index + 1) as nat)
        } else {
            None
        },
        Command::ScrollLeft | Command::EndOfLine | Command::StartOfLine => Some(
            (view.first_line_index + 1) as nat,
        ),
        Command::PrevDiff | Command::NextDiff => match jump {
            Some(_) => Some(view.first_line_index as nat),
            None => None,
        },
        _ => None,
    }
}

/// The view after `key`, where `jump` is the difference that the key found.
/// A key that quits changes no more than the repeat count.
pub open spec fn view_after(
    view: ViewState,
    key: Key,
    longest_line_length: usize,
    jump: Option<(usize, usize)>,
) -> ViewState {
    ViewState {
        horizontal_offset: offset_after(view, key, longest_line_length, jump),
        selected_diff_offset: match jump {
            Some((_, diff_offset)) => diff_offset,
            None => view.selected_diff_offset,
        },
        first_line_index: view.first_line_index,
        last_key: if command_spec(key) == Command::Quit {
            view.last_key
        } else {
            Some(key)
        },
        key_repeat_count: count_after(view, key),
    }
}

impl Key {
    /// What the key asks for.
    pub fn command(&self) -> (command: Command)
        ensures
            command == command_spec(*self),
    {
        match self {
            Key::Right => Command::ScrollRight,
            Key::Left => Command::ScrollLeft,
            Key::Down => Command::LineDown,
            Key::Up => Command::LineUp,
            Key::Esc => Command::Quit,
            Key::Char(c) => {
                if *c == 'N' {
                    Command::PrevDiff
                } else if *c == 'n' {
                    Command::NextDiff
                } else if *c == '$' {
                    Command::EndOfLine
                } else if *c == '^' {
                    Command::StartOfLine
                } else {
                    Command::Nothing
                }
            },
            Key::Other(_) => Command::Nothing,
        }
    }
}

impl ViewState {
    /// The view at the start of a session: unscrolled, with no key seen.
    pub fn new() -> (view: ViewState)
        ensures
            view == (ViewState {
                horizontal_offset: 0,
                selected_diff_offset: 0,
                first_line_index: 0,
                last_key: None,
                key_repeat_count: 0,
            }),
    {
        ViewState {
            horizontal_offset: 0,
            selected_diff_offset: 0,
            first_line_index: 0,
            last_key: None,
            key_repeat_count: 0,
        }
    }

    /// A pause: no key came. The next key repeats nothing.
    pub fn idle(&mut self)
        ensures
            *final(self) == (ViewState { last_key: None, key_repeat_count: 0, ..*old(self) }),
    {
        self.last_key = None;
        self.key_repeat_count = 0;
    }

    /// Counts `key` as a repeat where it is one, and gives the number of
    /// characters that it scrolls.
    pub fn count_key(&mut self, key: Key) -> (step: usize)
        ensures
            step == step_size(*old(self), key),
            *final(self) == (ViewState {
                key_repeat_count: count_after(*old(self), key),
                ..*old(self)
            }),
    {
        let mut repeat = false;
        if let Some(code) = self.last_key {
            if code == key {
                if self.key_repeat_count < REPEAT_THRESHOLD {
                    self.key_repeat_count += 1;
                } else {
                    repeat = true;
                }
            }
        }
        if repeat {
            FAST_STEP
        } else {
            1
        }
    }
}

} // verus!
