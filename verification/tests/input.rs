use pager::input::{key_edit, EditAction, KeyInput};

#[test]
fn released_key_does_nothing() {
    let out = key_edit(false, KeyInput::Character("a".to_string()));
    assert!(!out.redraw);
    assert!(out.action.is_none());
    let out = key_edit(false, KeyInput::Backspace);
    assert!(!out.redraw);
    assert!(out.action.is_none());
}

#[test]
fn text_key_inserts_its_text() {
    let out = key_edit(true, KeyInput::Character("é!".to_string()));
    assert!(out.redraw);
    assert!(matches!(out.action, Some(EditAction::Insert(ref s)) if s == "é!"));
}

#[test]
fn enter_and_space_insert() {
    let out = key_edit(true, KeyInput::Enter);
    assert!(matches!(out.action, Some(EditAction::Insert(ref s)) if s == "\n"));
    let out = key_edit(true, KeyInput::Space);
    assert!(matches!(out.action, Some(EditAction::Insert(ref s)) if s == " "));
}

#[test]
fn arrows_move_and_backspace_deletes() {
    assert!(matches!(key_edit(true, KeyInput::ArrowLeft).action, Some(EditAction::MoveHorizontal(-1))));
    assert!(matches!(key_edit(true, KeyInput::ArrowRight).action, Some(EditAction::MoveHorizontal(1))));
    assert!(matches!(key_edit(true, KeyInput::Backspace).action, Some(EditAction::Delete)));
}

#[test]
fn other_key_only_redraws() {
    let out = key_edit(true, KeyInput::Other);
    assert!(out.redraw);
    assert!(out.action.is_none());
}
