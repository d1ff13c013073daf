//! Positional comparison of two line-oriented text files: indexing of line
//! offsets, windowed access, character-level diff sections and navigation
//! between changed regions.

pub mod text;
pub mod pairing;
pub mod section;
pub mod line_diff;
pub mod navigate;
pub mod indexer;
pub mod index_laws;
pub mod window;
pub mod label;
pub mod render;
pub mod input;
pub mod state;

pub use crate::indexer::{
    first_mismatch, index_lines, DiffPosition, LengthComparison, LineIndex, LineIndexer,
    DEFAULT_EXTRA_LINES,
};
pub use crate::input::{Command, Key, ViewState};
pub use crate::line_diff::{diff_line_pairs, diff_lines};
pub use crate::navigate::{find_next_diff, find_prev_diff};
pub use crate::render::{
    add_left_placeholder, build_lines, build_spans, is_blank, spans_substring, Fragment,
    FragmentStyle,
};
pub use crate::section::{merge_diff, DiffSection};
pub use crate::state::{longest_line_length, KeyOutcome, State};
pub use crate::window::window_offsets;
