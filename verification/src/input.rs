use vstd::prelude::*;

use crate::event::{KeyCode, KeyEvent, KeyEventKind, KeyModifiers};

verus! {

/// Caret movements of a single-line text input.
#[derive(Clone, Copy, Debug, PartialEq, Eq, Structural)]
pub enum TextMovement {
    Left,
    Right,
    Home,
    End,
}

/// An edit of a text input's buffer.
#[derive(Clone, Copy, Debug, PartialEq, Eq)]
pub enum TextEdit<'a> {
    /// Replace the selection, or insert at the caret.
    Insert(&'a str),
    /// Delete the selection, or the grapheme before the caret.
    Backspace,
    /// Delete the selection, or the grapheme after the caret.
    Delete,
    /// Move the caret, extending the selection when asked.
    Move { movement: TextMovement, extend_selection: bool },
    /// Select the whole text.
    SelectAll,
}

/// What a focused text input does with an event.
#[derive(Clone, Copy, Debug, PartialEq, Eq)]
pub enum InputAction<'a> {
    Edit(TextEdit<'a>),
    InsertCharacter(char),
    Submit,
}

/// An event routed to a focused text input.
#[derive(Clone, Copy, Debug, PartialEq, Eq)]
pub enum InputEvent<'a> {
    /// Committed text input.
    Text(&'a str),
    /// A complete bracketed paste.
    Paste(&'a str),
    /// A keyboard event.
    Key(KeyEvent),
    /// Any event a text input ignores.
    Other,
}

/// Whether modifiers make a key a command shortcut: Control without Alt,
/// or Meta, Super or Hyper.
pub open spec fn command_modifiers(m: KeyModifiers) -> bool {
    (m.contains_spec(KeyModifiers(2)) && !m.contains_spec(KeyModifiers(4))) || m.contains_spec(
        KeyModifiers(32),
    ) || m.contains_spec(KeyModifiers(8)) || m.contains_spec(KeyModifiers(16))
}

/// Whether modifiers make a key an Alt shortcut: Alt without Control.
pub open spec fn alt_modifiers(m: KeyModifiers) -> bool {
    m.contains_spec(KeyModifiers(4)) && !m.contains_spec(KeyModifiers(2))
}

/// What a text input does with a key that is pressed or repeated.
pub open spec fn key_action<'a>(key: KeyEvent) -> Option<InputAction<'a>> {
    let m = key.modifiers;
    match key.code {
        KeyCode::Backspace => Some(InputAction::Edit(TextEdit::Backspace)),
        KeyCode::Delete => Some(InputAction::Edit(TextEdit::Delete)),
        KeyCode::Left => Some(InputAction::Edit(TextEdit::Move { movement: TextMovement::Left, extend_selection: m.contains_spec(KeyModifiers(1)) })),
        KeyCode::Right => Some(InputAction::Edit(TextEdit::Move { movement: TextMovement::Right, extend_selection: m.contains_spec(KeyModifiers(1)) })),
        KeyCode::Home => Some(InputAction::Edit(TextEdit::Move { movement: TextMovement::Home, extend_selection: m.contains_spec(KeyModifiers(1)) })),
        KeyCode::End => Some(InputAction::Edit(TextEdit::Move { movement: TextMovement::End, extend_selection: m.contains_spec(KeyModifiers(1)) })),
        KeyCode::Character(c) => if command_modifiers(m) && (c == 'a' || c == 'A') {
            Some(InputAction::Edit(TextEdit::SelectAll))
        } else if !command_modifiers(m) && !alt_modifiers(m) {
            Some(InputAction::InsertCharacter(c))
        } else {
            None
        },
        KeyCode::Enter => if key.kind == KeyEventKind::Press {
            Some(InputAction::Submit)
        } else {
            None
        },
        _ => None,
    }
}

/// What a focused text input does with an event: text and pastes are
/// inserted; released keys and other events are ignored.
pub open spec fn input_action_spec<'a>(event: InputEvent<'a>) -> Option<InputAction<'a>> {
    match event {
        InputEvent::Text(text) => Some(InputAction::Edit(TextEdit::Insert(text))),
        InputEvent::Paste(text) => Some(InputAction::Edit(TextEdit::Insert(text))),
        InputEvent::Key(key) => if key.kind == KeyEventKind::Release {
            None
        } else {
            key_action(key)
        },
        InputEvent::Other => None,
    }
}

/// Maps an event to the action of a focused single-line text input.
pub fn input_action<'a>(event: &InputEvent<'a>) -> (r: Option<InputAction<'a>>)
    ensures
        r == input_action_spec(*event),
{
    match *event {
        InputEvent::Text(text) => Some(InputAction::Edit(TextEdit::Insert(text))),
        InputEvent::Paste(text) => Some(InputAction::Edit(TextEdit::Insert(text))),
        InputEvent::Key(key) => {
            let released = match key.kind {
                KeyEventKind::Release => true,
                _ => false,
            };
            if released {
                return None;
            }
            let m = key.modifiers;
            let extend_selection = m.contains(KeyModifiers::shift());
            let control_shortcut = m.contains(KeyModifiers::control()) && !m.contains(
                KeyModifiers::alt(),
            );
            let command = control_shortcut || m.contains(KeyModifiers::meta()) || m.contains(
                KeyModifiers::super_key(),
            ) || m.contains(KeyModifiers::hyper());
            let alt_shortcut = m.contains(KeyModifiers::alt()) && !m.contains(
                KeyModifiers::control(),
            );
            match key.code {
                KeyCode::Backspace => Some(InputAction::Edit(TextEdit::Backspace)),
                KeyCode::Delete => Some(InputAction::Edit(TextEdit::Delete)),
                KeyCode::Left => Some(
                    InputAction::Edit(TextEdit::Move { movement: TextMovement::Left, extend_selection }),
                ),
                KeyCode::Right => Some(
                    InputAction::Edit(TextEdit::Move { movement: TextMovement::Right, extend_selection }),
                ),
                KeyCode::Home => Some(
                    InputAction::Edit(TextEdit::Move { movement: TextMovement::Home, extend_selection }),
                ),
                KeyCode::End => Some(
                    InputAction::Edit(TextEdit::Move { movement: TextMovement::End, extend_selection }),
                ),
                KeyCode::Character(c) => {
                    if command && (c == 'a' || c == 'A') {
                        Some(InputAction::Edit(TextEdit::SelectAll))
                    } else if !command && !alt_shortcut {
                        Some(InputAction::InsertCharacter(c))
                    } else {
                        None
                    }
                },
                KeyCode::Enter => {
                    let press = match key.kind {
                        KeyEventKind::Press => true,
                        _ => false,
                    };
                    if press {
                        Some(InputAction::Submit)
                    } else {
                        None
                    }
                },
                _ => None,
            }
        },
        InputEvent::Other => None,
    }
}


/// A character key that is pressed or repeated is typed exactly when no
/// Meta, Super or Hyper modifier is held and Control and Alt are held
/// together or not at all; Shift alone, or no modifier, types the
/// character as it is.
pub proof fn lemma_plain_character_keys_are_typed(key: KeyEvent, c: char)
    requires
        key.kind != KeyEventKind::Release,
        key.code == KeyCode::Character(c),
    ensures
        input_action_spec(InputEvent::Key(key)) == Some(InputAction::InsertCharacter(c)) <==> (
        key.modifiers.0 & 56u8 == 0 && (key.modifiers.0 & 2u8 == 2u8) == (key.modifiers.0 & 4u8
            == 4u8)),
        key.modifiers.0 & 62u8 == 0 ==> input_action_spec(InputEvent::Key(key)) == Some(
            InputAction::InsertCharacter(c),
        ),
{
    let b = key.modifiers.0;
    assert((b & 32u8 == 32u8 || b & 8u8 == 8u8 || b & 16u8 == 16u8) <==> b & 56u8 != 0)
        by (bit_vector);
    assert(b & 62u8 == 0 ==> b & 56u8 == 0 && b & 2u8 != 2u8 && b & 4u8 != 4u8) by (bit_vector);
}

} // verus!
