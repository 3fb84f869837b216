use repl_frontend::prompt::{
    decimal_text, render_history_search, render_multiline_indicator, Conversation,
    HistorySearchStatus, ReplPrompt, Role, SessionState,
};
use std::sync::{Arc, Mutex};

fn idle() -> SessionState {
    SessionState { role: None, conversation: None }
}

#[test]
fn history_search_failing() {
    assert_eq!(
        render_history_search(HistorySearchStatus::Failing, "abc"),
        "(failing reverse-search: abc) "
    );
}

#[test]
fn history_search_passing() {
    assert_eq!(
        render_history_search(HistorySearchStatus::Passing, "abc"),
        "(reverse-search: abc) "
    );
}

#[test]
fn history_search_with_an_empty_term() {
    assert_eq!(render_history_search(HistorySearchStatus::Passing, ""), "(reverse-search: ) ");
    assert_eq!(
        render_history_search(HistorySearchStatus::Failing, ""),
        "(failing reverse-search: ) "
    );
}

#[test]
fn multiline_indicator_is_fixed() {
    assert_eq!(render_multiline_indicator(), "::: ");
}

#[test]
fn left_segment_is_the_role_name_or_empty() {
    let mut state = idle();
    assert_eq!(state.render_left(), "");
    state.role = Some(Role { name: "shell".to_string() });
    assert_eq!(state.render_left(), "shell");
}

#[test]
fn right_segment_is_the_remaining_tokens_or_empty() {
    let mut state = idle();
    assert_eq!(state.render_right(), "");
    state.conversation = Some(Conversation { remaining_tokens: 4096 });
    assert_eq!(state.render_right(), "4096");
    state.conversation = Some(Conversation { remaining_tokens: 0 });
    assert_eq!(state.render_right(), "0");
}

#[test]
fn indicator_follows_the_conversation() {
    let mut state = idle();
    assert_eq!(state.render_indicator(), "〉");
    state.conversation = Some(Conversation { remaining_tokens: 1 });
    assert_eq!(state.render_indicator(), "＄");
    state.conversation = None;
    assert_eq!(state.render_indicator(), "〉");
}

#[test]
fn indicator_does_not_depend_on_the_role() {
    let mut state = idle();
    state.role = Some(Role { name: "shell".to_string() });
    assert_eq!(state.render_indicator(), "〉");
}

#[test]
fn indicators_are_single_distinct_glyphs() {
    let chat = SessionState { role: None, conversation: Some(Conversation { remaining_tokens: 0 }) };
    assert_eq!(chat.render_indicator().chars().count(), 1);
    assert_eq!(idle().render_indicator().chars().count(), 1);
    assert_ne!(chat.render_indicator(), idle().render_indicator());
}

#[test]
fn decimal_text_of_small_and_large_numbers() {
    assert_eq!(decimal_text(0), "0");
    assert_eq!(decimal_text(7), "7");
    assert_eq!(decimal_text(10), "10");
    assert_eq!(decimal_text(109), "109");
    assert_eq!(decimal_text(1234567890), "1234567890");
    assert_eq!(decimal_text(usize::MAX), usize::MAX.to_string());
}

#[test]
fn prompt_shows_the_shared_state_of_the_moment() {
    let shared = Arc::new(Mutex::new(idle()));
    let prompt = ReplPrompt::new(shared.clone());
    assert_eq!(prompt.render_prompt_indicator(), "〉");
    assert_eq!(prompt.render_prompt_left(), "");
    assert_eq!(prompt.render_prompt_right(), "");

    shared.lock().unwrap().conversation = Some(Conversation { remaining_tokens: 250 });
    assert_eq!(prompt.render_prompt_indicator(), "＄");
    assert_eq!(prompt.render_prompt_right(), "250");

    shared.lock().unwrap().role = Some(Role { name: "coder".to_string() });
    assert_eq!(prompt.render_prompt_left(), "coder");

    shared.lock().unwrap().conversation = None;
    assert_eq!(prompt.render_prompt_indicator(), "〉");
    assert_eq!(prompt.render_prompt_right(), "");
    assert_eq!(prompt.render_prompt_left(), "coder");
}

#[test]
fn cloned_prompt_reads_the_same_state() {
    let shared = Arc::new(Mutex::new(idle()));
    let prompt = ReplPrompt::new(shared.clone());
    let copy = prompt.clone();
    shared.lock().unwrap().conversation = Some(Conversation { remaining_tokens: 3 });
    assert_eq!(prompt.render_prompt_right(), "3");
    assert_eq!(copy.render_prompt_right(), "3");
}

#[test]
fn prompt_texts_that_do_not_depend_on_the_state() {
    let prompt = ReplPrompt::new(Arc::new(Mutex::new(idle())));
    assert_eq!(prompt.render_prompt_multiline_indicator(), "::: ");
    assert_eq!(
        prompt.render_prompt_history_search_indicator(HistorySearchStatus::Failing, "abc"),
        "(failing reverse-search: abc) "
    );
    assert_eq!(
        prompt.render_prompt_history_search_indicator(HistorySearchStatus::Passing, "abc"),
        "(reverse-search: abc) "
    );
}
