use wham_ui::widgets::{checkbox_click, widget_click, InteractionState};
use wham_ui::input::{KeyCode, KeyPress, Modifiers};
use wham_ui::widgets::{
    dropdown_frame, focus_after_tab, handle_keyboard_navigation, position_of, radio_group_select,
    select_on_click, widget_kind_str, widget_role, A11yRole, DropdownInput, DropdownState, WidgetKind,
};

fn mods(shift: bool) -> Modifiers {
    Modifiers { ctrl: false, alt: false, shift, meta: false }
}

fn key(code: KeyCode, shift: bool) -> KeyPress {
    KeyPress { code, modifiers: mods(shift) }
}

fn strings(v: &[&str]) -> Vec<String> {
    v.iter().map(|s| s.to_string()).collect()
}

#[test]
fn roles_of_widget_kinds() {
    assert_eq!(widget_role(WidgetKind::Label), A11yRole::Label);
    assert_eq!(widget_role(WidgetKind::Button), A11yRole::Button);
    assert_eq!(widget_role(WidgetKind::Checkbox), A11yRole::CheckBox);
    assert_eq!(widget_role(WidgetKind::Radio), A11yRole::RadioButton);
    assert_eq!(widget_role(WidgetKind::TextInput), A11yRole::TextBox);
    assert_eq!(widget_role(WidgetKind::Select), A11yRole::ComboBox);
    assert_eq!(widget_role(WidgetKind::Group), A11yRole::Group);
}

#[test]
fn kind_names() {
    assert_eq!(widget_kind_str(WidgetKind::Label), "label");
    assert_eq!(widget_kind_str(WidgetKind::TextInput), "textinput");
    assert_eq!(widget_kind_str(WidgetKind::Select), "select");
    assert_eq!(widget_kind_str(WidgetKind::Group), "group");
}

#[test]
fn tab_moves_forward_and_wraps() {
    let ids = [10u64, 20, 30];
    let tab = [key(KeyCode::Tab, false)];
    assert_eq!(handle_keyboard_navigation(&ids, Some(10), &tab), Some(20));
    assert_eq!(handle_keyboard_navigation(&ids, Some(30), &tab), Some(10));
}

#[test]
fn shift_tab_moves_backward_and_wraps() {
    let ids = [10u64, 20, 30];
    let back = [key(KeyCode::Tab, true)];
    assert_eq!(handle_keyboard_navigation(&ids, Some(20), &back), Some(10));
    assert_eq!(handle_keyboard_navigation(&ids, Some(10), &back), Some(30));
}

#[test]
fn unfocused_counts_as_first_widget() {
    let ids = [10u64, 20, 30];
    assert_eq!(handle_keyboard_navigation(&ids, None, &[key(KeyCode::Tab, false)]), Some(20));
    assert_eq!(handle_keyboard_navigation(&ids, Some(99), &[key(KeyCode::Tab, true)]), Some(30));
}

#[test]
fn only_last_tab_counts_and_other_keys_are_ignored() {
    let ids = [10u64, 20, 30];
    let keys = [key(KeyCode::Tab, false), key(KeyCode::A, false), key(KeyCode::Tab, true)];
    assert_eq!(handle_keyboard_navigation(&ids, Some(20), &keys), Some(10));
    assert_eq!(handle_keyboard_navigation(&ids, Some(20), &[key(KeyCode::Enter, false)]), Some(20));
    assert_eq!(handle_keyboard_navigation(&[], Some(5), &[key(KeyCode::Tab, false)]), Some(5));
}

#[test]
fn tab_round_trip_returns_focus() {
    let ids = [3u64, 1, 4, 5];
    for &id in &ids {
        let there = focus_after_tab(&ids, Some(id), false);
        assert_eq!(focus_after_tab(&ids, there, true), Some(id));
        let back = focus_after_tab(&ids, Some(id), true);
        assert_eq!(focus_after_tab(&ids, back, false), Some(id));
    }
}

#[test]
fn select_cycles_through_options() {
    let options = strings(&["User", "Admin", "Viewer"]);
    let mut value = "User".to_string();
    select_on_click(&options, &mut value);
    assert_eq!(value, "Admin");
    select_on_click(&options, &mut value);
    assert_eq!(value, "Viewer");
    select_on_click(&options, &mut value);
    assert_eq!(value, "User");
    let mut other = "Guest".to_string();
    select_on_click(&options, &mut other);
    assert_eq!(other, "Guest");
    assert_eq!(position_of(&options, &"Viewer".to_string()), Some(2));
}

#[test]
fn radio_last_click_wins() {
    let mut selected = 0usize;
    assert!(!radio_group_select(&[false, false], &mut selected));
    assert_eq!(selected, 0);
    assert!(radio_group_select(&[false, true, false], &mut selected));
    assert_eq!(selected, 1);
    assert!(radio_group_select(&[true, false, true], &mut selected));
    assert_eq!(selected, 2);
}

fn input(clicked: bool, keys: Vec<KeyCode>, pressed_outside: bool, clicked_option: Option<usize>) -> DropdownInput {
    DropdownInput { clicked, keys, pressed_outside, clicked_option }
}

#[test]
fn dropdown_click_opens_on_current_value() {
    let options = strings(&["Red", "Green", "Blue"]);
    let mut state = DropdownState { open: None, selected: 0 };
    let mut focused = None;
    let mut value = "Green".to_string();
    let changed = dropdown_frame(&mut state, &mut focused, 7, &options, &mut value, &input(true, vec![], false, None));
    assert!(!changed);
    assert_eq!(state, DropdownState { open: Some(7), selected: 1 });
    assert_eq!(focused, Some(7));
    assert_eq!(value, "Green");
}

#[test]
fn dropdown_keyboard_navigation_and_enter() {
    let options = strings(&["Red", "Green", "Blue"]);
    let mut state = DropdownState { open: Some(7), selected: 1 };
    let mut focused = Some(7);
    let mut value = "Green".to_string();
    let keys = vec![KeyCode::ArrowDown, KeyCode::ArrowDown, KeyCode::ArrowUp, KeyCode::ArrowDown, KeyCode::Enter];
    let changed = dropdown_frame(&mut state, &mut focused, 7, &options, &mut value, &input(false, keys, false, None));
    assert!(changed);
    assert_eq!(value, "Blue");
    assert_eq!(state, DropdownState { open: None, selected: 2 });
}

#[test]
fn dropdown_escape_and_outside_press_close() {
    let options = strings(&["Red", "Green"]);
    let mut state = DropdownState { open: Some(7), selected: 0 };
    let mut focused = Some(7);
    let mut value = "Red".to_string();
    dropdown_frame(&mut state, &mut focused, 7, &options, &mut value, &input(false, vec![KeyCode::Escape], false, None));
    assert_eq!(state.open, None);
    let mut state = DropdownState { open: Some(7), selected: 0 };
    let mut unfocused = Some(1);
    dropdown_frame(&mut state, &mut unfocused, 7, &options, &mut value, &input(false, vec![KeyCode::ArrowDown], true, None));
    assert_eq!(state, DropdownState { open: None, selected: 0 });
    assert_eq!(value, "Red");
}

#[test]
fn dropdown_option_click_changes_value() {
    let options = strings(&["Red", "Green", "Blue"]);
    let mut state = DropdownState { open: Some(7), selected: 0 };
    let mut focused = Some(7);
    let mut value = "Red".to_string();
    let changed = dropdown_frame(&mut state, &mut focused, 7, &options, &mut value, &input(false, vec![], false, Some(2)));
    assert!(changed);
    assert_eq!(value, "Blue");
    assert_eq!(state.open, None);
}

#[test]
fn dropdown_click_while_open_closes_without_change() {
    let options = strings(&["Red", "Green"]);
    let mut state = DropdownState { open: Some(7), selected: 1 };
    let mut focused = Some(7);
    let mut value = "Red".to_string();
    let changed = dropdown_frame(&mut state, &mut focused, 7, &options, &mut value, &input(true, vec![], false, Some(1)));
    assert!(!changed);
    assert_eq!(state.open, None);
    assert_eq!(value, "Red");
}

#[test]
fn closed_dropdown_ignores_keys_and_options() {
    let options = strings(&["Red", "Green"]);
    let mut state = DropdownState { open: Some(3), selected: 1 };
    let mut focused = Some(7);
    let mut value = "Red".to_string();
    let changed = dropdown_frame(&mut state, &mut focused, 7, &options, &mut value, &input(false, vec![KeyCode::Enter], true, Some(0)));
    assert!(!changed);
    assert_eq!(state, DropdownState { open: Some(3), selected: 1 });
    assert_eq!(value, "Red");
}

#[test]
fn press_and_release_click_and_focus() {
    let mut s = InteractionState { focused: None, active: None };
    assert!(!widget_click(&mut s, 5, false, true));
    assert_eq!(s, InteractionState { focused: None, active: None });
    assert!(!widget_click(&mut s, 5, true, false));
    assert_eq!(s, InteractionState { focused: None, active: Some(5) });
    assert!(widget_click(&mut s, 5, true, true));
    assert_eq!(s, InteractionState { focused: Some(5), active: None });
    let mut checked = false;
    assert!(checkbox_click(&mut s, 6, true, true, &mut checked));
    assert!(checked);
    assert_eq!(s.focused, Some(6));
    assert!(!checkbox_click(&mut s, 6, true, false, &mut checked));
    assert!(checked);
}

#[test]
fn dropdown_picking_the_current_value_is_no_change() {
    let options = strings(&["Red", "Green", "Blue"]);
    let mut state = DropdownState { open: Some(7), selected: 0 };
    let mut focused = Some(7);
    let mut value = "Green".to_string();
    let changed = dropdown_frame(&mut state, &mut focused, 7, &options, &mut value, &input(false, vec![], false, Some(1)));
    assert!(!changed);
    assert_eq!(value, "Green");
    assert_eq!(state.open, None);
}
