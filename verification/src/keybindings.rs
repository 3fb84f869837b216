//! The key binding plan: which chords the front end binds, and to what.

use vstd::prelude::*;
use reedline::{KeyCode, KeyModifiers, Keybindings, ReedlineEvent};

verus! {

/// The name under which the completion menu is known to the engine.
pub const MENU_NAME: &'static str = "completion_menu";

/// The command that the host runs to clear the screen.
pub const CLEAR_SCREEN_COMMAND: &'static str = ".clear screen";

/// No modifier key held.
pub const NO_MODIFIERS: u8 = 0;

/// The bit of the shift key in a chord's modifiers.
pub const SHIFT: u8 = 1;

/// The bit of the control key in a chord's modifiers.
pub const CONTROL: u8 = 2;

/// The bit of the alt key in a chord's modifiers.
pub const ALT: u8 = 4;

/// A key of the keyboard.
#[derive(Clone, Copy, Debug, PartialEq, Eq, Structural)]
pub enum Key {
    Backspace,
    Enter,
    Left,
    Right,
    Up,
    Down,
    Home,
    End,
    PageUp,
    PageDown,
    Tab,
    BackTab,
    Delete,
    Insert,
    /// A function key, by its number.
    F(u8),
    /// A character key.
    Char(char),
    Null,
    Esc,
}

/// One step that the engine can be asked to take.
#[derive(Clone, Debug, PartialEq, Eq)]
pub enum Step {
    /// Open the menu of this name.
    Menu(String),
    /// Go to the next entry of the open menu.
    MenuNext,
    /// Hand this command to the host.
    ExecuteHostCommand(String),
}

/// What a chord is resolved to.
#[derive(Clone, Debug, PartialEq, Eq)]
pub enum Action {
    /// One step.
    Step(Step),
    /// The candidates are tried in order; the first that applies is taken.
    UntilFound(Vec<Step>),
    /// An action of the engine's own, of which the plan says nothing.
    EngineDefault,
}

/// A step as a mathematical value.
pub enum StepView {
    Menu(Seq<char>),
    MenuNext,
    ExecuteHostCommand(Seq<char>),
}

/// An action as a mathematical value.
pub enum ActionView {
    Step(StepView),
    UntilFound(Seq<StepView>),
    EngineDefault,
}

impl View for Step {
    type V = StepView;

    open spec fn view(&self) -> StepView {
        match self {
            Step::Menu(name) => StepView::Menu(name@),
            Step::MenuNext => StepView::MenuNext,
            Step::ExecuteHostCommand(command) => StepView::ExecuteHostCommand(command@),
        }
    }
}

impl View for Action {
    type V = ActionView;

    open spec fn view(&self) -> ActionView {
        match self {
            Action::Step(step) => ActionView::Step(step@),
            Action::UntilFound(candidates) => ActionView::UntilFound(
                Seq::new(candidates@.len(), |i: int| candidates@[i]@),
            ),
            Action::EngineDefault => ActionView::EngineDefault,
        }
    }
}

/// The engine's table of key bindings, opaque here.
#[verifier::external_type_specification]
#[verifier::external_body]
pub struct ExKeybindings(reedline::Keybindings);

/// The engine's name for a key.
#[verifier::external_type_specification]
#[verifier::external_body]
pub struct ExKeyCode(reedline::KeyCode);

/// The engine's name for an action.
#[verifier::external_type_specification]
#[verifier::external_body]
pub struct ExReedlineEvent(reedline::ReedlineEvent);

/// What a table of key bindings binds: for each chord that it binds, given as
/// the bits of its modifiers and its key, the action bound to it. An event of
/// the engine that is neither a step nor a list of steps to try in order
/// stands in it as `EngineDefault`.
pub uninterp spec fn bound_actions(bindings: Keybindings) -> Map<(u8, Key), ActionView>;

/// `reedline::default_emacs_keybindings`: the engine's own table.
pub assume_specification[ reedline::default_emacs_keybindings ]() -> Keybindings
;

/// The engine's name for `key`: the variant of `KeyCode` of the same name.
#[verifier::external_body]
fn key_code(key: Key) -> KeyCode {
    match key {
        Key::Backspace => KeyCode::Backspace, Key::Enter => KeyCode::Enter,
        Key::Left => KeyCode::Left, Key::Right => KeyCode::Right,
        Key::Up => KeyCode::Up, Key::Down => KeyCode::Down,
        Key::Home => KeyCode::Home, Key::End => KeyCode::End,
        Key::PageUp => KeyCode::PageUp, Key::PageDown => KeyCode::PageDown,
        Key::Tab => KeyCode::Tab, Key::BackTab => KeyCode::BackTab,
        Key::Delete => KeyCode::Delete, Key::Insert => KeyCode::Insert,
        Key::F(n) => KeyCode::F(n), Key::Char(c) => KeyCode::Char(c),
        Key::Null => KeyCode::Null, Key::Esc => KeyCode::Esc,
    }
}

/// The engine's event for `step`: the variant of `ReedlineEvent` of the same
/// name.
#[verifier::external_body]
fn step_event(step: &Step) -> ReedlineEvent {
    match step {
        Step::Menu(name) => ReedlineEvent::Menu(name.clone()),
        Step::MenuNext => ReedlineEvent::MenuNext,
        Step::ExecuteHostCommand(command) => ReedlineEvent::ExecuteHostCommand(command.clone()),
    }
}

/// The engine's event for `action`: that of its step, or `UntilFound` over the
/// events of its candidates; for `EngineDefault` the event that does nothing.
#[verifier::external_body]
fn action_event(action: &Action) -> ReedlineEvent {
    match action {
        Action::Step(step) => step_event(step),
        Action::UntilFound(candidates) => ReedlineEvent::UntilFound(
            candidates.iter().map(step_event).collect(),
        ),
        Action::EngineDefault => ReedlineEvent::None,
    }
}

/// `Keybindings::add_binding`: the chord is bound to the action from now on,
/// in place of what it was bound to; every other chord is bound as before.
/// The engine refuses an empty list of candidates.
#[verifier::external_body]
fn add_binding(bindings: &mut Keybindings, modifiers: u8, key: Key, action: &Action)
    requires
        modifiers <= SHIFT + CONTROL + ALT,
        action@ matches ActionView::UntilFound(candidates) ==> candidates.len() > 0,
    ensures
        bound_actions(*final(bindings)) == bound_actions(*old(bindings)).insert(
            (modifiers, key),
            action@,
        ),
{
    bindings.add_binding(KeyModifiers::from_bits_truncate(modifiers), key_code(key), action_event(action));
}

/// What the plan resolves a chord to: Tab without a modifier opens the
/// completion menu or, where it is open, goes to its next entry; control and
/// `l` hand the host the command that clears the screen; every other chord is
/// left to the engine.
pub open spec fn planned_action(modifiers: u8, key: Key) -> ActionView {
    if modifiers == NO_MODIFIERS && key == Key::Tab {
        ActionView::UntilFound(seq![StepView::Menu(MENU_NAME@), StepView::MenuNext])
    } else if modifiers == CONTROL && key == Key::Char('l') {
        ActionView::Step(StepView::ExecuteHostCommand(CLEAR_SCREEN_COMMAND@))
    } else {
        ActionView::EngineDefault
    }
}

/// What a table binds once the plan is laid over it.
pub open spec fn with_plan(bound: Map<(u8, Key), ActionView>) -> Map<(u8, Key), ActionView> {
    bound.insert((NO_MODIFIERS, Key::Tab), planned_action(NO_MODIFIERS, Key::Tab)).insert(
        (CONTROL, Key::Char('l')),
        planned_action(CONTROL, Key::Char('l')),
    )
}

/// The action that the plan resolves the chord to.
pub fn resolve_key(modifiers: u8, key: Key) -> (action: Action)
    ensures
        action@ == planned_action(modifiers, key),
{
    if modifiers == NO_MODIFIERS && key == Key::Tab {
        let mut candidates: Vec<Step> = Vec::new();
        candidates.push(Step::Menu(MENU_NAME.to_owned()));
        candidates.push(Step::MenuNext);
        let action = Action::UntilFound(candidates);
        assert(action@->UntilFound_0 =~= seq![StepView::Menu(MENU_NAME@), StepView::MenuNext]);
        action
    } else if modifiers == CONTROL && key == Key::Char('l') {
        Action::Step(Step::ExecuteHostCommand(CLEAR_SCREEN_COMMAND.to_owned()))
    } else {
        Action::EngineDefault
    }
}

/// Lays the plan over `bindings`: the chords of the plan are bound as it
/// says, and every other chord stays as it was.
pub fn apply_key_plan(bindings: &mut Keybindings)
    ensures
        bound_actions(*final(bindings)) == with_plan(bound_actions(*old(bindings))),
{
    let tab = resolve_key(NO_MODIFIERS, Key::Tab);
    add_binding(bindings, NO_MODIFIERS, Key::Tab, &tab);
    let clear = resolve_key(CONTROL, Key::Char('l'));
    add_binding(bindings, CONTROL, Key::Char('l'), &clear);
}

/// The engine's own table with the plan laid over it.
pub fn create_keybindings() -> (bindings: Keybindings)
    ensures
        bound_actions(bindings).contains_pair(
            (NO_MODIFIERS, Key::Tab),
            planned_action(NO_MODIFIERS, Key::Tab),
        ),
        bound_actions(bindings).contains_pair(
            (CONTROL, Key::Char('l')),
            planned_action(CONTROL, Key::Char('l')),
        ),
        forall|modifiers: u8, key: Key|
            planned_action(modifiers, key) != ActionView::EngineDefault ==> bound_actions(
                bindings,
            ).contains_pair((modifiers, key), #[trigger] planned_action(modifiers, key)),
{
    let mut bindings = reedline::default_emacs_keybindings();
    let ghost before = bound_actions(bindings);
    apply_key_plan(&mut bindings);
    proof {
        plan_wins(before, bound_actions(bindings));
    }
    bindings
}

/// In a table with the plan laid over it, a chord that the plan speaks of is
/// bound as the plan says, and any other chord is bound as it was before, or
/// not at all if it was not.
pub proof fn plan_wins(before: Map<(u8, Key), ActionView>, after: Map<(u8, Key), ActionView>)
    requires
        after == with_plan(before),
    ensures
        forall|modifiers: u8, key: Key|
            planned_action(modifiers, key) != ActionView::EngineDefault ==> after.contains_pair(
                (modifiers, key),
                #[trigger] planned_action(modifiers, key),
            ),
        forall|modifiers: u8, key: Key|
            #[trigger] planned_action(modifiers, key) == ActionView::EngineDefault ==> {
                &&& after.dom().contains((modifiers, key)) == before.dom().contains(
                    (modifiers, key),
                )
                &&& before.dom().contains((modifiers, key)) ==> after[(modifiers, key)]
                    == before[(modifiers, key)]
            },
{
}

} // verus!
