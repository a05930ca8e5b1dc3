use wham_ui::form_path::{path, register_submit, RegisterSubmit};

#[test]
fn path_keeps_segments_in_order() {
    let p = path(&["contacts", "0", "label"]);
    assert_eq!(p.0, vec!["contacts".to_string(), "0".to_string(), "label".to_string()]);
}

#[test]
fn empty_path() {
    assert!(path(&[]).0.is_empty());
}

#[test]
fn registration_needs_matching_passwords() {
    assert_eq!(register_submit(&"hunter2".to_string(), &"hunter2".to_string()), RegisterSubmit::Submit);
    assert_eq!(register_submit(&"hunter2".to_string(), &"hunter3".to_string()), RegisterSubmit::ConfirmMismatch);
    assert_eq!(register_submit(&String::new(), &String::new()), RegisterSubmit::Submit);
}
