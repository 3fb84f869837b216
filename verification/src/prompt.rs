//! The prompt: four texts rendered from the state of the session, and the
//! text shown during a search of the history.

use vstd::prelude::*;
use vstd::string::StringExecFns;
use std::sync::{Arc, Mutex};

verus! {

/// Shown in front of the input while a conversation is active.
pub const CHAT_INDICATOR: &'static str = "＄";

/// Shown in front of the input while no conversation is active.
pub const COMMAND_INDICATOR: &'static str = "〉";

/// Shown in front of each continuation line.
pub const DEFAULT_MULTILINE_INDICATOR: &'static str = "::: ";

/// The role that answers are given in.
#[derive(Clone, Debug, PartialEq, Eq)]
pub struct Role {
    pub name: String,
}

/// A conversation in progress.
#[derive(Clone, Copy, Debug, PartialEq, Eq)]
pub struct Conversation {
    /// The tokens that the conversation may still use.
    pub remaining_tokens: usize,
}

/// The part of the session's state that the prompt shows.
#[derive(Clone, Debug, PartialEq, Eq)]
pub struct SessionState {
    pub role: Option<Role>,
    pub conversation: Option<Conversation>,
}

/// Whether a search of the history has found something.
#[derive(Clone, Copy, Debug, PartialEq, Eq, Structural)]
pub enum HistorySearchStatus {
    Passing,
    Failing,
}

/// The character that stands for the digit `d`.
pub open spec fn digit_char(d: nat) -> char {
    if d == 0 {
        '0'
    } else if d == 1 {
        '1'
    } else if d == 2 {
        '2'
    } else if d == 3 {
        '3'
    } else if d == 4 {
        '4'
    } else if d == 5 {
        '5'
    } else if d == 6 {
        '6'
    } else if d == 7 {
        '7'
    } else if d == 8 {
        '8'
    } else {
        '9'
    }
}

/// `n` in decimal, without leading zeros.
pub open spec fn decimal(n: nat) -> Seq<char>
    decreases n,
{
    if n < 10 {
        seq![digit_char(n)]
    } else {
        decimal(n / 10).push(digit_char(n % 10))
    }
}

/// The left segment for `state`: the name of the role, or nothing.
pub open spec fn left_segment(state: SessionState) -> Seq<char> {
    match state.role {
        Some(role) => role.name@,
        None => Seq::empty(),
    }
}

/// The right segment for `state`: the tokens left to the conversation, in
/// decimal, or nothing.
pub open spec fn right_segment(state: SessionState) -> Seq<char> {
    match state.conversation {
        Some(conversation) => decimal(conversation.remaining_tokens as nat),
        None => Seq::empty(),
    }
}

/// The indicator for `state`.
pub open spec fn indicator(state: SessionState) -> Seq<char> {
    if state.conversation is Some {
        CHAT_INDICATOR@
    } else {
        COMMAND_INDICATOR@
    }
}

/// The text shown while the history is searched for `term`.
pub open spec fn history_search_indicator(status: HistorySearchStatus, term: Seq<char>) -> Seq<
    char,
> {
    let prefix = match status {
        HistorySearchStatus::Passing => Seq::<char>::empty(),
        HistorySearchStatus::Failing => "failing "@,
    };
    "("@ + prefix + "reverse-search: "@ + term + ") "@
}

/// The text of one digit.
fn digit_text(d: usize) -> (text: &'static str)
    requires
        d < 10,
    ensures
        text@ == seq![digit_char(d as nat)],
{
    proof {
        reveal_strlit("0");
        reveal_strlit("1");
        reveal_strlit("2");
        reveal_strlit("3");
        reveal_strlit("4");
        reveal_strlit("5");
        reveal_strlit("6");
        reveal_strlit("7");
        reveal_strlit("8");
        reveal_strlit("9");
    }
    let text = if d == 0 {
        "0"
    } else if d == 1 {
        "1"
    } else if d == 2 {
        "2"
    } else if d == 3 {
        "3"
    } else if d == 4 {
        "4"
    } else if d == 5 {
        "5"
    } else if d == 6 {
        "6"
    } else if d == 7 {
        "7"
    } else if d == 8 {
        "8"
    } else {
        "9"
    };
    assert(text@ =~= seq![digit_char(d as nat)]);
    text
}

/// Appends `n` in decimal to `text`.
fn push_decimal(text: &mut String, n: usize)
    ensures
        final(text)@ == old(text)@ + decimal(n as nat),
    decreases n,
{
    if n >= 10 {
        push_decimal(text, n / 10);
    }
    text.append(digit_text(n % 10));
    assert(final(text)@ =~= old(text)@ + decimal(n as nat));
}

/// `n` as decimal text.
pub fn decimal_text(n: usize) -> (text: String)
    ensures
        text@ == decimal(n as nat),
{
    let mut text = String::new();
    push_decimal(&mut text, n);
    assert(text@ =~= decimal(n as nat));
    text
}

/// The two indicators are single glyphs, and not the same one.
pub proof fn indicators_differ()
    ensures
        CHAT_INDICATOR@ == seq!['＄'],
        COMMAND_INDICATOR@ == seq!['〉'],
        CHAT_INDICATOR@ != COMMAND_INDICATOR@,
{
    reveal_strlit("＄");
    reveal_strlit("〉");
    assert(CHAT_INDICATOR@ =~= seq!['＄']);
    assert(COMMAND_INDICATOR@ =~= seq!['〉']);
    assert(CHAT_INDICATOR@[0] != COMMAND_INDICATOR@[0]);
}

impl SessionState {
    /// The left segment of the prompt: the name of the role, or nothing.
    pub fn render_left(&self) -> (text: String)
        ensures
            text@ == left_segment(*self),
    {
        match &self.role {
            Some(role) => role.name.clone(),
            None => String::new(),
        }
    }

    /// The right segment of the prompt: the tokens left to the conversation,
    /// or nothing.
    pub fn render_right(&self) -> (text: String)
        ensures
            text@ == right_segment(*self),
    {
        match &self.conversation {
            Some(conversation) => decimal_text(conversation.remaining_tokens),
            None => String::new(),
        }
    }

    /// The indicator: one glyph while a conversation is active, another while
    /// none is.
    pub fn render_indicator(&self) -> (text: &'static str)
        ensures
            text@ == indicator(*self),
            (text@ == CHAT_INDICATOR@) == (self.conversation is Some),
            (text@ == COMMAND_INDICATOR@) == (self.conversation is None),
    {
        proof {
            indicators_differ();
        }
        if self.conversation.is_some() {
            CHAT_INDICATOR
        } else {
            COMMAND_INDICATOR
        }
    }
}

/// The text shown in front of each continuation line, whatever the state.
pub fn render_multiline_indicator() -> (text: &'static str)
    ensures
        text@ == DEFAULT_MULTILINE_INDICATOR@,
{
    DEFAULT_MULTILINE_INDICATOR
}

/// The text shown while the history is searched for `term`: the word
/// `failing` stands in it only while the search fails.
pub fn render_history_search(status: HistorySearchStatus, term: &str) -> (text: String)
    ensures
        text@ == history_search_indicator(status, term@),
{
    let prefix = match status {
        HistorySearchStatus::Passing => "",
        HistorySearchStatus::Failing => "failing ",
    };
    proof {
        reveal_strlit("");
    }
    let mut text = String::new();
    text.append("(");
    text.append(prefix);
    text.append("reverse-search: ");
    text.append(term);
    text.append(") ");
    assert(text@ =~= history_search_indicator(status, term@));
    text
}

/// The lock that guards the session's state, opaque here.
#[verifier::external_type_specification]
#[verifier::external_body]
#[verifier::reject_recursive_types(T)]
pub struct ExMutex<T: ?Sized>(std::sync::Mutex<T>);

/// The hold on a lock, opaque here; the lock is released when it goes.
#[verifier::external_type_specification]
#[verifier::external_body]
#[verifier::reject_recursive_types(T)]
pub struct ExMutexGuard<'a, T: ?Sized + 'a>(std::sync::MutexGuard<'a, T>);

/// What `lock` gives in place of the hold where a panic has poisoned the
/// lock; the hold is inside.
#[verifier::external_type_specification]
#[verifier::external_body]
#[verifier::reject_recursive_types(T)]
pub struct ExPoisonError<T>(std::sync::PoisonError<T>);

/// `Mutex::lock` waits for the lock and gives the hold on it, or the error
/// that has the hold inside. Which of the two, and what the lock guards at
/// that moment, is not known here. The calling thread must not hold the lock
/// already.
pub assume_specification<'a, T: ?Sized>[ std::sync::Mutex::<T>::lock ](
    mutex: &'a std::sync::Mutex<T>,
) -> std::sync::LockResult<std::sync::MutexGuard<'a, T>>
;

/// `PoisonError::into_inner` gives the hold that the error has inside.
pub assume_specification<T>[ std::sync::PoisonError::<T>::into_inner ](
    error: std::sync::PoisonError<T>,
) -> T
;

/// `Deref::deref` of a hold gives what the lock guards.
pub assume_specification<'a, 'b, T: ?Sized>[ <std::sync::MutexGuard<'a, T> as core::ops::Deref>::deref ](
    guard: &'b std::sync::MutexGuard<'a, T>,
) -> &'b T
;

/// A copy of the state, made while the lock is held; the lock is released
/// before the call returns. A lock that a panic has poisoned is read all the
/// same.
fn snapshot(shared: &Arc<Mutex<SessionState>>) -> (state: SessionState) {
    match shared.lock() {
        Ok(guard) => guard.clone(),
        Err(poisoned) => poisoned.into_inner().clone(),
    }
}

/// The prompt of one session: a view of the state that the session shares
/// with its owner. Nothing is kept between two calls, so each text shows the
/// state of the moment at which it is rendered.
#[derive(Clone)]
pub struct ReplPrompt(Arc<Mutex<SessionState>>);

impl ReplPrompt {
    /// The prompt over `shared`.
    pub fn new(shared: Arc<Mutex<SessionState>>) -> (prompt: Self)
        ensures
            prompt.shared() == shared,
    {
        ReplPrompt(shared)
    }

    /// The left segment for the state of this moment.
    pub fn render_prompt_left(&self) -> (text: String)
        ensures
            exists|state: SessionState| text@ == left_segment(state),
    {
        let state = snapshot(&self.0);
        state.render_left()
    }

    /// The right segment for the state of this moment: nothing, or a number
    /// in decimal.
    pub fn render_prompt_right(&self) -> (text: String)
        ensures
            text@.len() == 0 || exists|tokens: usize| text@ == decimal(tokens as nat),
    {
        let state = snapshot(&self.0);
        state.render_right()
    }

    /// The indicator for the state of this moment: one of the two glyphs.
    pub fn render_prompt_indicator(&self) -> (text: &'static str)
        ensures
            text@ == CHAT_INDICATOR@ || text@ == COMMAND_INDICATOR@,
    {
        let state = snapshot(&self.0);
        state.render_indicator()
    }

    /// The text shown in front of each continuation line.
    pub fn render_prompt_multiline_indicator(&self) -> (text: &'static str)
        ensures
            text@ == DEFAULT_MULTILINE_INDICATOR@,
    {
        render_multiline_indicator()
    }

    /// The text shown while the history is searched for `term`.
    pub fn render_prompt_history_search_indicator(
        &self,
        status: HistorySearchStatus,
        term: &str,
    ) -> (text: String)
        ensures
            text@ == history_search_indicator(status, term@),
    {
        render_history_search(status, term)
    }

    /// The lock that the prompt reads the state through: the one it was made
    /// over.
    pub closed spec fn shared(&self) -> Arc<Mutex<SessionState>> {
        self.0
    }
}

} // verus!
