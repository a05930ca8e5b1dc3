use wham_ui::input::{map_button, PointerButton};

#[test]
fn map_button_numbers() {
    assert_eq!(map_button(0), PointerButton::Left);
    assert_eq!(map_button(1), PointerButton::Middle);
    assert_eq!(map_button(2), PointerButton::Right);
    assert_eq!(map_button(3), PointerButton::Other(3));
    assert_eq!(map_button(65535), PointerButton::Other(65535));
}
