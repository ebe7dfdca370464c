use fuzzy_finder::config::{load_fuzzy_config, FuzzyConfig};
use fuzzy_finder::input::{InputAction, Key, Modifiers, TerminalEvent};
use fuzzy_finder::message::{FuzzyEvent, FuzzySelection, FuzzyShutdown};
use fuzzy_finder::service::FuzzyFinderService;
use fuzzy_finder::state::{FuzzyEscapeState, FuzzyQueryState};

fn query(text: &str, cursor_index: usize) -> FuzzyQueryState {
    FuzzyQueryState { query: text.to_string(), cursor_index }
}

fn after(mut state: FuzzyQueryState, events: &[FuzzyEvent]) -> FuzzyQueryState {
    for event in events {
        let given = FuzzyFinderService::query_state(&mut state, *event);
        assert_eq!(given, Some(state.clone()));
    }
    state
}

const NONE: Modifiers = Modifiers { shift: false, control: false, alt: false };
const CONTROL: Modifiers = Modifiers { shift: false, control: true, alt: false };

fn key(key: Key, modifiers: Modifiers) -> InputAction {
    FuzzyFinderService::input(TerminalEvent::Key(key, modifiers), &FuzzyEscapeState(None))
}

#[test]
fn typing_spells_a_word() {
    let state = after(
        FuzzyQueryState::default(),
        &[FuzzyEvent::Insert('t'), FuzzyEvent::Insert('a'), FuzzyEvent::Insert('b')],
    );
    assert_eq!(state, query("tab", 3));
}

#[test]
fn typing_goes_in_at_the_cursor() {
    assert_eq!(after(query("tb", 1), &[FuzzyEvent::Insert('a')]), query("tab", 2));
    assert_eq!(after(query("äb", 1), &[FuzzyEvent::Insert('ö')]), query("äöb", 2));
}

#[test]
fn delete_takes_the_character_before_the_cursor() {
    assert_eq!(after(query("tab", 2), &[FuzzyEvent::Delete]), query("tb", 1));
    assert_eq!(after(query("äöü", 2), &[FuzzyEvent::Delete]), query("äü", 1));
}

#[test]
fn delete_at_the_start_takes_the_first_character() {
    assert_eq!(after(query("tab", 0), &[FuzzyEvent::Delete]), query("ab", 0));
    assert_eq!(after(query("", 0), &[FuzzyEvent::Delete]), query("", 0));
}

#[test]
fn delete_undoes_insert() {
    let events = [FuzzyEvent::Insert('x'), FuzzyEvent::Delete];
    assert_eq!(after(query("tab", 0), &events), query("tab", 0));
    assert_eq!(after(query("tab", 1), &events), query("tab", 1));
    assert_eq!(after(query("tab", 3), &events), query("tab", 3));
}

#[test]
fn delete_past_the_last_character_does_not_undo_insert() {
    let events = [FuzzyEvent::Insert('x'), FuzzyEvent::Delete];
    assert_eq!(after(query("é", 2), &events), query("éx", 2));
}

#[test]
fn the_cursor_moves_within_the_query() {
    assert_eq!(after(query("ab", 0), &[FuzzyEvent::MoveLeft]), query("ab", 0));
    assert_eq!(after(query("ab", 2), &[FuzzyEvent::MoveLeft]), query("ab", 1));
    assert_eq!(after(query("ab", 1), &[FuzzyEvent::MoveRight]), query("ab", 2));
    assert_eq!(after(query("ab", 2), &[FuzzyEvent::MoveRight]), query("ab", 2));
}

#[test]
fn the_cursor_counts_bytes_at_the_right() {
    assert_eq!(after(query("é", 1), &[FuzzyEvent::MoveRight]), query("é", 2));
    assert_eq!(after(query("é", 2), &[FuzzyEvent::MoveRight]), query("é", 2));
}

#[test]
fn left_undoes_right() {
    let events = [FuzzyEvent::MoveRight, FuzzyEvent::MoveLeft];
    assert_eq!(after(query("ab", 1), &events), query("ab", 1));
}

#[test]
fn the_query_ignores_other_events() {
    let others = [
        FuzzyEvent::MoveUp,
        FuzzyEvent::MoveDown,
        FuzzyEvent::MoveFirst,
        FuzzyEvent::MoveLast,
        FuzzyEvent::Enter,
        FuzzyEvent::Resize(80, 24),
    ];
    for event in others {
        let mut state = query("ab", 1);
        assert_eq!(FuzzyFinderService::query_state(&mut state, event), None);
        assert_eq!(state, query("ab", 1));
    }
}

#[test]
fn keys_ask_for_events() {
    let expected = [
        (Key::Left, FuzzyEvent::MoveLeft),
        (Key::Right, FuzzyEvent::MoveRight),
        (Key::Up, FuzzyEvent::MoveUp),
        (Key::BackTab, FuzzyEvent::MoveUp),
        (Key::Down, FuzzyEvent::MoveDown),
        (Key::Tab, FuzzyEvent::MoveDown),
        (Key::Backspace, FuzzyEvent::Delete),
        (Key::Delete, FuzzyEvent::Delete),
        (Key::Enter, FuzzyEvent::Enter),
        (Key::PageUp, FuzzyEvent::MoveFirst),
        (Key::PageDown, FuzzyEvent::MoveLast),
        (Key::Char('k'), FuzzyEvent::Insert('k')),
    ];
    for (pressed, event) in expected {
        assert_eq!(key(pressed, NONE), InputAction::Send(event));
    }
    for pressed in [Key::Home, Key::End, Key::Insert, Key::F(1), Key::Null] {
        assert_eq!(key(pressed, NONE), InputAction::Ignore);
    }
}

#[test]
fn control_keys_move_and_quit() {
    assert_eq!(key(Key::Char('k'), CONTROL), InputAction::Send(FuzzyEvent::MoveUp));
    assert_eq!(key(Key::Char('p'), CONTROL), InputAction::Send(FuzzyEvent::MoveUp));
    assert_eq!(key(Key::Char('j'), CONTROL), InputAction::Send(FuzzyEvent::MoveDown));
    assert_eq!(key(Key::Char('n'), CONTROL), InputAction::Send(FuzzyEvent::MoveDown));
    for c in ['c', 'x', 'w'] {
        assert_eq!(key(Key::Char(c), CONTROL), InputAction::Shutdown(FuzzyShutdown {}));
    }
    assert_eq!(key(Key::Char('a'), CONTROL), InputAction::Ignore);
}

#[test]
fn control_with_another_modifier_types() {
    let both = Modifiers { shift: true, control: true, alt: false };
    assert_eq!(key(Key::Char('c'), both), InputAction::Send(FuzzyEvent::Insert('c')));
}

#[test]
fn escape_goes_back_where_it_can() {
    let event = TerminalEvent::Key(Key::Esc, NONE);
    let back = FuzzyEscapeState(Some("home/".to_string()));
    assert_eq!(
        FuzzyFinderService::input(event, &back),
        InputAction::Select(FuzzySelection("home/".to_string()))
    );
    assert_eq!(
        FuzzyFinderService::input(event, &FuzzyEscapeState(None)),
        InputAction::Shutdown(FuzzyShutdown {})
    );
}

#[test]
fn the_mouse_is_ignored_and_a_resize_is_told() {
    let escape = FuzzyEscapeState(None);
    assert_eq!(FuzzyFinderService::input(TerminalEvent::Mouse, &escape), InputAction::Ignore);
    assert_eq!(
        FuzzyFinderService::input(TerminalEvent::Resize(80, 24), &escape),
        InputAction::Send(FuzzyEvent::Resize(80, 24))
    );
}

#[test]
fn settings_fall_back_to_the_default() {
    let read: Result<FuzzyConfig, String> = Ok(FuzzyConfig { create_tab: false });
    assert_eq!(load_fuzzy_config(read), FuzzyConfig { create_tab: false });
    let failed: Result<FuzzyConfig, String> = Err("no such file".to_string());
    assert_eq!(load_fuzzy_config(failed), FuzzyConfig::default());
    assert!(FuzzyConfig::default().create_tab);
}
