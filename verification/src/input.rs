//! What the pager does with a key event.

use vstd::prelude::*;

use crate::render::text::push_char;

verus! {

/// A keyboard key as the pager tells keys apart.
pub enum KeyInput {
    /// A key that produces text.
    Character(String),
    Enter,
    ArrowLeft,
    ArrowRight,
    Space,
    Backspace,
    /// Any other key.
    Other,
}

/// An edit of the text buffer.
pub enum EditAction {
    /// Insert the text at each cursor.
    Insert(String),
    /// Move each cursor by this many graphemes.
    MoveHorizontal(isize),
    /// Delete before each cursor.
    Delete,
}

/// What follows a key event: the edit to apply, if any, and whether the
/// window is drawn again.
pub struct KeyOutcome {
    pub action: Option<EditAction>,
    pub redraw: bool,
}

fn one_char_string(c: char) -> (s: String)
    ensures
        s@ == seq![c],
{
    let mut s = String::new();
    push_char(&mut s, c);
    assert(s@ =~= seq![c]);
    s
}

/// The pager's answer to a key event: a released key changes nothing; a
/// pressed key asks for a redraw and, for text, Enter, Space, the left and
/// right arrows and Backspace, for an edit (Enter inserts a line break and
/// Space a blank).
pub fn key_edit(pressed: bool, key: KeyInput) -> (outcome: KeyOutcome)
    ensures
        outcome.redraw == pressed,
        !pressed ==> outcome.action is None,
        pressed ==> match key {
            KeyInput::Character(s) => outcome.action matches Some(EditAction::Insert(t)) && t@ == s@,
            KeyInput::Enter => outcome.action matches Some(EditAction::Insert(t)) && t@ == seq!['\n'],
            KeyInput::Space => outcome.action matches Some(EditAction::Insert(t)) && t@ == seq![' '],
            KeyInput::ArrowLeft => outcome.action matches Some(EditAction::MoveHorizontal(d)) && d == -1,
            KeyInput::ArrowRight => outcome.action matches Some(EditAction::MoveHorizontal(d)) && d == 1,
            KeyInput::Backspace => outcome.action matches Some(EditAction::Delete),
            KeyInput::Other => outcome.action is None,
        },
{
    if !pressed {
        return KeyOutcome { action: None, redraw: false };
    }
    let action = match key {
        KeyInput::Character(s) => Some(EditAction::Insert(s)),
        KeyInput::Enter => Some(EditAction::Insert(one_char_string('\n'))),
        KeyInput::ArrowLeft => Some(EditAction::MoveHorizontal(-1)),
        KeyInput::ArrowRight => Some(EditAction::MoveHorizontal(1)),
        KeyInput::Space => Some(EditAction::Insert(one_char_string(' '))),
        KeyInput::Backspace => Some(EditAction::Delete),
        KeyInput::Other => None,
    };
    KeyOutcome { action, redraw: true }
}

} // verus!
