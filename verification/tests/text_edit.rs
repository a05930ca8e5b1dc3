use wham_ui::text_edit::display_text;
use wham_ui::input::{KeyCode, KeyPress, Modifiers};
use wham_ui::text_edit::{
    contains_newline, pointer_down, strip_newlines, pointer_move, pointer_up, text_event_commands, ClickState, EditCommand,
    SelectionAction, SelectionState, TextEvent,
};

fn key(code: KeyCode, ctrl: bool, alt: bool, shift: bool, meta: bool) -> TextEvent {
    TextEvent::KeyDown(KeyPress { code, modifiers: Modifiers { ctrl, alt, shift, meta } })
}

const NO_SEL: SelectionState = SelectionState { has_selection: false, non_empty: false };
const SEL: SelectionState = SelectionState { has_selection: true, non_empty: true };

fn names(event: TextEvent, multiline: bool, overwrite: bool, sel: SelectionState) -> (Vec<String>, bool) {
    let step = text_event_commands(event, multiline, overwrite, sel);
    (step.commands.iter().map(|c| format!("{:?}", c)).collect(), step.toggle_overwrite)
}

#[test]
fn typed_text_is_inserted() {
    let (cmds, toggle) = names(TextEvent::TextInput("hi".into()), false, false, NO_SEL);
    assert_eq!(cmds, vec!["InsertText(\"hi\")"]);
    assert!(!toggle);
}

#[test]
fn newlines_rejected_in_single_line_fields() {
    assert!(names(TextEvent::TextInput("a\nb".into()), false, false, NO_SEL).0.is_empty());
    assert_eq!(names(TextEvent::TextInput("a\nb".into()), true, false, NO_SEL).0, vec!["InsertText(\"a\\nb\")"]);
    assert!(names(key(KeyCode::Enter, false, false, false, false), false, false, NO_SEL).0.is_empty());
    assert_eq!(names(key(KeyCode::Enter, false, false, false, false), true, false, NO_SEL).0, vec!["InsertNewline"]);
}

#[test]
fn overwrite_mode_deletes_first_without_selection() {
    assert_eq!(
        names(TextEvent::TextInput("x".into()), false, true, NO_SEL).0,
        vec!["DeleteForward", "InsertText(\"x\")"]
    );
    assert_eq!(names(TextEvent::TextInput("x".into()), false, true, SEL).0, vec!["InsertText(\"x\")"]);
    let (cmds, toggle) = names(key(KeyCode::Insert, false, false, false, false), false, false, NO_SEL);
    assert!(cmds.is_empty());
    assert!(toggle);
}

#[test]
fn deletion_keys() {
    assert_eq!(names(key(KeyCode::Backspace, false, false, false, false), false, false, NO_SEL).0, vec!["DeleteBackward"]);
    assert_eq!(names(key(KeyCode::Backspace, true, false, false, false), false, false, NO_SEL).0, vec!["DeleteWordBackward"]);
    assert_eq!(names(key(KeyCode::Delete, false, true, false, false), false, false, NO_SEL).0, vec!["DeleteWordForward"]);
    assert_eq!(names(key(KeyCode::Delete, false, false, false, false), false, false, NO_SEL).0, vec!["DeleteForward"]);
}

#[test]
fn arrows_collapse_selection_without_shift() {
    assert_eq!(names(key(KeyCode::ArrowLeft, false, false, false, false), false, false, SEL).0, vec!["CollapseToSelectionStart"]);
    assert_eq!(names(key(KeyCode::ArrowRight, false, false, false, false), false, false, SEL).0, vec!["CollapseToSelectionEnd"]);
    assert_eq!(names(key(KeyCode::ArrowLeft, false, false, true, false), false, false, SEL).0, vec!["MoveLeft(true)"]);
    assert_eq!(names(key(KeyCode::ArrowRight, false, false, false, false), false, false, NO_SEL).0, vec!["MoveRight(false)"]);
    assert_eq!(names(key(KeyCode::ArrowLeft, true, false, false, false), false, false, SEL).0, vec!["MoveWordLeft(false)"]);
    assert_eq!(names(key(KeyCode::ArrowUp, false, false, true, false), false, false, NO_SEL).0, vec!["MoveToStart(true)"]);
    assert_eq!(names(key(KeyCode::ArrowDown, false, false, false, false), false, false, NO_SEL).0, vec!["MoveToEnd(false)"]);
}

#[test]
fn home_and_end() {
    assert_eq!(names(key(KeyCode::Home, false, false, false, false), false, false, NO_SEL).0, vec!["MoveToLineStart(false)"]);
    assert_eq!(names(key(KeyCode::Home, true, false, true, false), false, false, NO_SEL).0, vec!["MoveToStart(true)"]);
    assert_eq!(names(key(KeyCode::End, false, false, true, false), false, false, NO_SEL).0, vec!["MoveToLineEnd(true)"]);
    assert_eq!(names(key(KeyCode::End, true, false, false, false), false, false, NO_SEL).0, vec!["MoveToEnd(false)"]);
}

#[test]
fn shortcuts_need_ctrl_or_meta() {
    assert_eq!(names(key(KeyCode::A, true, false, false, false), false, false, NO_SEL).0, vec!["SelectAll"]);
    assert!(names(key(KeyCode::A, false, false, false, false), false, false, NO_SEL).0.is_empty());
    assert_eq!(names(key(KeyCode::C, false, false, false, true), false, false, SEL).0, vec!["CopySelection"]);
    assert_eq!(names(key(KeyCode::X, true, false, false, false), false, false, SEL).0, vec!["CutSelection"]);
    assert_eq!(names(key(KeyCode::Z, true, false, false, false), false, false, NO_SEL).0, vec!["Undo"]);
    assert_eq!(names(key(KeyCode::Z, true, false, true, false), false, false, NO_SEL).0, vec!["Redo"]);
    assert_eq!(names(key(KeyCode::Y, false, false, false, true), false, false, NO_SEL).0, vec!["Redo"]);
    assert!(names(key(KeyCode::Other, true, false, false, false), false, false, NO_SEL).0.is_empty());
}

#[test]
fn composition_and_paste() {
    assert_eq!(names(TextEvent::CompositionStart, false, false, NO_SEL).0, vec!["BeginComposition"]);
    assert_eq!(names(TextEvent::CompositionUpdate("ka".into()), false, false, NO_SEL).0, vec!["UpdateComposition(\"ka\")"]);
    assert_eq!(names(TextEvent::CompositionEnd("か".into()), false, false, NO_SEL).0, vec!["EndComposition(\"か\")"]);
    // A single-line field drops the line breaks of pasted text.
    assert_eq!(names(TextEvent::Paste("p\nq".into()), false, true, NO_SEL).0, vec!["InsertText(\"pq\")"]);
    assert_eq!(names(TextEvent::Paste("p\nq".into()), true, true, NO_SEL).0, vec!["InsertText(\"p\\nq\")"]);
}

#[test]
fn single_line_field_never_gains_a_line_break() {
    assert!(names(TextEvent::Paste("\n\n".into()), false, false, SEL).0.is_empty());
    assert_eq!(names(TextEvent::Paste("\na\nb\n".into()), false, false, NO_SEL).0, vec!["InsertText(\"ab\")"]);
    assert_eq!(
        names(TextEvent::CompositionUpdate("x\ny".into()), false, false, NO_SEL).0,
        vec!["UpdateComposition(\"xy\")"]
    );
    assert_eq!(names(TextEvent::CompositionEnd("か\n".into()), false, false, NO_SEL).0, vec!["EndComposition(\"か\")"]);
    assert_eq!(
        names(TextEvent::CompositionEnd("か\n".into()), true, false, NO_SEL).0,
        vec!["EndComposition(\"か\\n\")"]
    );
}

#[test]
fn strip_newlines_removes_every_line_break() {
    assert_eq!(strip_newlines("a\nb\n\nc"), "abc");
    assert_eq!(strip_newlines(""), "");
    assert_eq!(strip_newlines("\n"), "");
    assert_eq!(strip_newlines("héllo"), "héllo");
}

#[test]
fn newline_detection() {
    assert!(contains_newline("a\n"));
    assert!(!contains_newline("abc"));
    assert!(!contains_newline(""));
}

fn fresh() -> ClickState {
    ClickState { click_count: 0, last_click_id: None, dragging: None, selection_anchor: None }
}

#[test]
fn single_double_triple_click() {
    let mut s = fresh();
    assert_eq!(pointer_down(&mut s, 4, 2, true), SelectionAction::SetCaret(2));
    assert_eq!(s.dragging, Some(4));
    assert_eq!(s.selection_anchor, Some(2));
    assert_eq!(pointer_down(&mut s, 4, 2, true), SelectionAction::SelectWordAt(2));
    assert_eq!(s.dragging, None);
    assert_eq!(pointer_down(&mut s, 4, 2, true), SelectionAction::SelectLineAt(2));
    assert_eq!(pointer_down(&mut s, 4, 2, true), SelectionAction::SelectLineAt(2));
    assert_eq!(s.click_count, 4);
    // A slow click starts over.
    assert_eq!(pointer_down(&mut s, 4, 5, false), SelectionAction::SetCaret(5));
    assert_eq!(s.click_count, 1);
    // A quick click on another field starts over too.
    assert_eq!(pointer_down(&mut s, 9, 0, true), SelectionAction::SetCaret(0));
}

#[test]
fn click_count_saturates() {
    let mut s = ClickState { click_count: 255, last_click_id: Some(1), dragging: None, selection_anchor: None };
    assert_eq!(pointer_down(&mut s, 1, 0, true), SelectionAction::SelectLineAt(0));
    assert_eq!(s.click_count, 255);
}

#[test]
fn drag_extends_selection_until_release() {
    let mut s = fresh();
    pointer_down(&mut s, 4, 3, false);
    assert_eq!(pointer_move(&s, 4, 7, 0), Some(SelectionAction::SetSelection(3, 7)));
    assert_eq!(pointer_move(&s, 5, 7, 0), None);
    pointer_up(&mut s, 4, false);
    assert_eq!(s.dragging, Some(4));
    pointer_up(&mut s, 4, true);
    assert_eq!(s.dragging, None);
    assert_eq!(s.selection_anchor, None);
    assert_eq!(pointer_move(&s, 4, 8, 0), None);
    let anchored_on_caret = ClickState { click_count: 1, last_click_id: Some(4), dragging: Some(4), selection_anchor: None };
    assert_eq!(pointer_move(&anchored_on_caret, 4, 1, 6), Some(SelectionAction::SetSelection(6, 1)));
}

#[test]
fn display_text_shows_placeholder_bullets_or_text() {
    assert_eq!(display_text("", "email@example.com", false), "email@example.com");
    assert_eq!(display_text("", "password", true), "password");
    assert_eq!(display_text("secret", "password", true), "\u{2022}".repeat(6));
    // One bullet per grapheme, not per char.
    assert_eq!(display_text("e\u{301}a", "", true), "\u{2022}\u{2022}");
    assert_eq!(display_text("hi", "x", false), "hi");
}
