use arborui::event::{KeyCode, KeyEvent, KeyEventKind, KeyEventState, KeyModifiers};
use arborui::input::{input_action, InputAction, InputEvent, TextEdit, TextMovement};

fn key(code: KeyCode, modifiers: KeyModifiers, kind: KeyEventKind) -> InputEvent<'static> {
    InputEvent::Key(KeyEvent {
        code,
        modifiers,
        kind,
        state: KeyEventState::default(),
    })
}

#[test]
fn text_and_pastes_are_inserted() {
    assert_eq!(
        input_action(&InputEvent::Text("hé")),
        Some(InputAction::Edit(TextEdit::Insert("hé")))
    );
    assert_eq!(
        input_action(&InputEvent::Paste("x y")),
        Some(InputAction::Edit(TextEdit::Insert("x y")))
    );
    assert_eq!(input_action(&InputEvent::Other), None);
}

#[test]
fn shift_extends_movement_and_releases_are_ignored() {
    assert_eq!(
        input_action(&key(KeyCode::Left, KeyModifiers::shift(), KeyEventKind::Press)),
        Some(InputAction::Edit(TextEdit::Move {
            movement: TextMovement::Left,
            extend_selection: true,
        }))
    );
    assert_eq!(
        input_action(&key(KeyCode::End, KeyModifiers::none(), KeyEventKind::Repeat)),
        Some(InputAction::Edit(TextEdit::Move {
            movement: TextMovement::End,
            extend_selection: false,
        }))
    );
    assert_eq!(
        input_action(&key(KeyCode::Backspace, KeyModifiers::none(), KeyEventKind::Release)),
        None
    );
}

#[test]
fn shortcuts_select_all_and_suppress_character_insertion() {
    let control = KeyModifiers::control();
    let alt = KeyModifiers::alt();
    let both = KeyModifiers(control.0 | alt.0);
    assert_eq!(
        input_action(&key(KeyCode::Character('A'), control, KeyEventKind::Press)),
        Some(InputAction::Edit(TextEdit::SelectAll))
    );
    assert_eq!(
        input_action(&key(KeyCode::Character('a'), KeyModifiers::meta(), KeyEventKind::Press)),
        Some(InputAction::Edit(TextEdit::SelectAll))
    );
    assert_eq!(input_action(&key(KeyCode::Character('b'), control, KeyEventKind::Press)), None);
    assert_eq!(input_action(&key(KeyCode::Character('b'), alt, KeyEventKind::Press)), None);
    // AltGr arrives as Control and Alt together and still types.
    assert_eq!(
        input_action(&key(KeyCode::Character('@'), both, KeyEventKind::Press)),
        Some(InputAction::InsertCharacter('@'))
    );
}

#[test]
fn enter_submits_only_when_pressed() {
    assert_eq!(
        input_action(&key(KeyCode::Enter, KeyModifiers::none(), KeyEventKind::Press)),
        Some(InputAction::Submit)
    );
    assert_eq!(
        input_action(&key(KeyCode::Enter, KeyModifiers::none(), KeyEventKind::Repeat)),
        None
    );
    assert_eq!(
        input_action(&key(KeyCode::Tab, KeyModifiers::none(), KeyEventKind::Press)),
        None
    );
}
