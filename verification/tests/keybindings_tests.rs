use reedline::{default_emacs_keybindings, KeyCode, KeyModifiers, Keybindings, ReedlineEvent};
use repl_frontend::keybindings::{
    apply_key_plan, create_keybindings, resolve_key, Action, Key, Step, ALT, CLEAR_SCREEN_COMMAND,
    CONTROL, MENU_NAME, NO_MODIFIERS, SHIFT,
};

fn menu_or_next() -> ReedlineEvent {
    ReedlineEvent::UntilFound(vec![
        ReedlineEvent::Menu("completion_menu".to_string()),
        ReedlineEvent::MenuNext,
    ])
}

#[test]
fn constants_of_the_plan() {
    assert_eq!(MENU_NAME, "completion_menu");
    assert_eq!(CLEAR_SCREEN_COMMAND, ".clear screen");
    assert_eq!(NO_MODIFIERS, KeyModifiers::NONE.bits());
    assert_eq!(SHIFT, KeyModifiers::SHIFT.bits());
    assert_eq!(CONTROL, KeyModifiers::CONTROL.bits());
    assert_eq!(ALT, KeyModifiers::ALT.bits());
}

#[test]
fn tab_opens_the_menu_or_goes_to_its_next_entry() {
    assert_eq!(
        resolve_key(NO_MODIFIERS, Key::Tab),
        Action::UntilFound(vec![Step::Menu("completion_menu".to_string()), Step::MenuNext])
    );
}

#[test]
fn control_l_clears_the_screen_through_the_host() {
    assert_eq!(
        resolve_key(CONTROL, Key::Char('l')),
        Action::Step(Step::ExecuteHostCommand(".clear screen".to_string()))
    );
}

#[test]
fn other_chords_are_left_to_the_engine() {
    assert_eq!(resolve_key(SHIFT, Key::Tab), Action::EngineDefault);
    assert_eq!(resolve_key(CONTROL, Key::Tab), Action::EngineDefault);
    assert_eq!(resolve_key(NO_MODIFIERS, Key::Char('l')), Action::EngineDefault);
    assert_eq!(resolve_key(CONTROL, Key::Char('L')), Action::EngineDefault);
    assert_eq!(resolve_key(CONTROL + ALT, Key::Char('l')), Action::EngineDefault);
    assert_eq!(resolve_key(NO_MODIFIERS, Key::Enter), Action::EngineDefault);
    assert_eq!(resolve_key(NO_MODIFIERS, Key::F(1)), Action::EngineDefault);
    assert_eq!(resolve_key(NO_MODIFIERS, Key::BackTab), Action::EngineDefault);
}

#[test]
fn created_table_binds_the_plan() {
    let bindings = create_keybindings();
    assert_eq!(bindings.find_binding(KeyModifiers::NONE, KeyCode::Tab), Some(menu_or_next()));
    assert_eq!(
        bindings.find_binding(KeyModifiers::CONTROL, KeyCode::Char('l')),
        Some(ReedlineEvent::ExecuteHostCommand(".clear screen".to_string()))
    );
}

#[test]
fn created_table_keeps_the_other_bindings_of_the_engine() {
    let bindings = create_keybindings();
    let defaults = default_emacs_keybindings();
    let mut others: usize = 0;
    for (chord, event) in defaults.get_keybindings() {
        let planned = (chord.modifier == KeyModifiers::NONE && chord.key_code == KeyCode::Tab)
            || (chord.modifier == KeyModifiers::CONTROL && chord.key_code == KeyCode::Char('l'));
        if !planned {
            assert_eq!(bindings.find_binding(chord.modifier, chord.key_code), Some(event.clone()));
            others += 1;
        }
    }
    assert!(others > 0);
    assert_eq!(
        bindings.find_binding(KeyModifiers::NONE, KeyCode::Enter),
        Some(ReedlineEvent::Enter)
    );
    assert_eq!(
        bindings.find_binding(KeyModifiers::CONTROL, KeyCode::Char('c')),
        Some(ReedlineEvent::CtrlC)
    );
}

#[test]
fn created_table_binds_nothing_else() {
    let bindings = create_keybindings();
    let defaults = default_emacs_keybindings();
    for (chord, _) in bindings.get_keybindings() {
        let planned = (chord.modifier == KeyModifiers::NONE && chord.key_code == KeyCode::Tab)
            || (chord.modifier == KeyModifiers::CONTROL && chord.key_code == KeyCode::Char('l'));
        assert!(planned || defaults.find_binding(chord.modifier, chord.key_code).is_some());
    }
}

#[test]
fn plan_on_an_empty_table_binds_two_chords() {
    let mut bindings = Keybindings::empty();
    apply_key_plan(&mut bindings);
    assert_eq!(bindings.get_keybindings().len(), 2);
    assert_eq!(bindings.find_binding(KeyModifiers::NONE, KeyCode::Tab), Some(menu_or_next()));
    assert_eq!(
        bindings.find_binding(KeyModifiers::CONTROL, KeyCode::Char('l')),
        Some(ReedlineEvent::ExecuteHostCommand(".clear screen".to_string()))
    );
    assert_eq!(bindings.find_binding(KeyModifiers::SHIFT, KeyCode::Tab), None);
}

#[test]
fn plan_replaces_what_the_chords_were_bound_to() {
    let mut bindings = Keybindings::empty();
    bindings.add_binding(KeyModifiers::NONE, KeyCode::Tab, ReedlineEvent::Enter);
    bindings.add_binding(KeyModifiers::ALT, KeyCode::Char('x'), ReedlineEvent::Esc);
    apply_key_plan(&mut bindings);
    assert_eq!(bindings.find_binding(KeyModifiers::NONE, KeyCode::Tab), Some(menu_or_next()));
    assert_eq!(
        bindings.find_binding(KeyModifiers::ALT, KeyCode::Char('x')),
        Some(ReedlineEvent::Esc)
    );
    assert_eq!(bindings.get_keybindings().len(), 3);
}

#[test]
fn plan_laid_twice_is_the_plan_laid_once() {
    let mut once = default_emacs_keybindings();
    apply_key_plan(&mut once);
    let mut twice = default_emacs_keybindings();
    apply_key_plan(&mut twice);
    apply_key_plan(&mut twice);
    assert_eq!(once.get_keybindings(), twice.get_keybindings());
}
