//! The input front end of an interactive command line: deciding whether a
//! buffer is complete, offering completions, planning key bindings and
//! rendering the prompt.

use vstd::prelude::*;

pub mod commands;
pub mod completion;
pub mod keybindings;
pub mod prompt;
pub mod text;
pub mod validator;

pub use commands::{multiline_commands, ReplCommand};
pub use completion::{is_word_char, order_by_vocabulary, CompletionSource, MIN_WORD_LEN};
pub use keybindings::{apply_key_plan, create_keybindings, resolve_key, Action, Key, Step};
pub use prompt::{
    decimal_text, render_history_search, render_multiline_indicator, Conversation,
    HistorySearchStatus, ReplPrompt, Role, SessionState,
};
pub use validator::{incomplete_brackets, odd_quotes, starts_with_one_of, ReplValidator, Validation};

verus! {

/// The number of entries that the history of a session keeps.
pub const HISTORY_CAPACITY: usize = 1000;

} // verus!
