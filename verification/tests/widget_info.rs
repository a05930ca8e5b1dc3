use wham_ui::widget_info::{
    button_widget, checkbox_widget, dropdown_info, label_info, radio_group_widgets, select_widget,
    text_input_info, A11yState,
};
use wham_ui::widgets::{DropdownState, InteractionState, WidgetKind};

const IDLE: InteractionState = InteractionState { focused: None, active: None };

fn state(focused: bool, expanded: bool, selected: bool) -> A11yState {
    A11yState { focused, disabled: false, invalid: false, required: false, expanded, selected }
}

#[test]
fn button_record_reads_focus_before_the_click() {
    let mut s = IDLE;
    let (clicked, info) = button_widget(&mut s, 7, "Submit", true, true);
    assert!(clicked);
    assert_eq!(s.focused, Some(7));
    assert_eq!(info.id, 7);
    assert_eq!(info.kind, WidgetKind::Button);
    assert_eq!(info.label, "Submit");
    assert_eq!(info.value, None);
    assert_eq!(info.state, state(false, false, false));
    // On the next frame the focused button reports focus.
    let (clicked, info) = button_widget(&mut s, 7, "Submit", false, false);
    assert!(!clicked);
    assert_eq!(info.state, state(true, false, false));
}

#[test]
fn checkbox_record_holds_the_new_value() {
    let mut s = IDLE;
    let mut v = false;
    let (changed, info) = checkbox_widget(&mut s, 3, "Agree", true, true, &mut v);
    assert!(changed);
    assert!(v);
    assert_eq!(info.kind, WidgetKind::Checkbox);
    assert_eq!(info.value.as_deref(), Some("true"));
    assert_eq!(info.state, state(true, false, true));
    let (changed, info) = checkbox_widget(&mut s, 3, "Agree", true, false, &mut v);
    assert!(!changed);
    assert_eq!(s.active, Some(3));
    assert_eq!(info.value.as_deref(), Some("true"));
}

#[test]
fn select_record_after_cycling() {
    let opts: Vec<String> = vec!["Red".into(), "Green".into(), "Blue".into()];
    let mut s = IDLE;
    let mut v = "Blue".to_string();
    let (clicked, info) = select_widget(&mut s, 9, "Color", &opts, &mut v, true, true);
    assert!(clicked);
    assert_eq!(v, "Red");
    assert_eq!(info.kind, WidgetKind::Select);
    assert_eq!(info.value.as_deref(), Some("Red"));
    assert_eq!(info.state, state(true, false, true));
}

#[test]
fn radio_records_one_per_option() {
    let opts: Vec<String> = vec!["a".into(), "b".into(), "c".into()];
    let mut s = IDLE;
    let mut sel = 0usize;
    let (changed, infos) =
        radio_group_widgets(&mut s, &[10, 11, 12], &opts, &[false, false, true], &[false, false, true], &mut sel);
    assert!(changed);
    assert_eq!(sel, 2);
    assert_eq!(s.focused, Some(12));
    assert_eq!(infos.len(), 3);
    assert_eq!(infos[0].kind, WidgetKind::Radio);
    assert_eq!(infos[0].label, "a");
    assert_eq!(infos[0].value.as_deref(), Some("a"));
    // Option 0 was still the selected one when its record was made.
    assert_eq!(infos[0].state, state(false, false, true));
    assert_eq!(infos[1].state, state(false, false, false));
    assert_eq!(infos[2].state, state(true, false, true));
}

#[test]
fn dropdown_record_reports_expanded() {
    let open = DropdownState { open: Some(4), selected: 1 };
    let info = dropdown_info(&open, Some(4), 4, "Color", &"Green".to_string());
    assert_eq!(info.kind, WidgetKind::Select);
    assert_eq!(info.value.as_deref(), Some("Green"));
    assert_eq!(info.state, state(true, true, true));
    let closed = DropdownState { open: None, selected: 1 };
    assert_eq!(dropdown_info(&closed, None, 4, "Color", &"Green".to_string()).state, state(false, false, true));
}

#[test]
fn label_and_text_field_records() {
    let info = label_info(1, "Name");
    assert_eq!(info.kind, WidgetKind::Label);
    assert_eq!(info.label, "Name");
    assert_eq!(info.value, None);
    let s = InteractionState { focused: Some(2), active: None };
    let info = text_input_info(&s, 2, "Email", "a@b.c");
    assert_eq!(info.kind, WidgetKind::TextInput);
    assert_eq!(info.value.as_deref(), Some("a@b.c"));
    assert_eq!(info.state, state(true, false, false));
}
