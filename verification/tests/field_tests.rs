use bevy_bc_ime_text_field::selection::cursor_span;
use bevy_bc_ime_text_field::text_field::{
    change_focus_on_click, over_field_after_out, placeholder_span, Select, TextField, TextFieldInfo,
    TextFieldInput,
};
use bevy_bc_ime_text_field::text_field_style::change_passwd;
use bevy_bc_ime_text_field::ImeTextFieldPlugin;

#[test]
fn select_states() {
    assert!(Select(3, 3, None).is_close());
    assert!(!Select(3, 4, None).is_close());
    assert!(Select(3, 5, Some(5)).is_open_left());
    assert!(!Select(3, 5, Some(3)).is_open_left());
    assert!(Select(3, 5, Some(3)).is_open_right());
    assert!(!Select(3, 5, None).is_open_right());
    assert!(!Select(3, 5, None).is_open_left());
}

#[test]
fn defaults() {
    let f = TextField::default();
    assert_eq!(f.text, "");
    assert_eq!((f.select.0, f.select.1, f.select.2), (0, 0, None));
    assert_eq!(f.command.len(), 0);
    let i = TextFieldInfo::default();
    assert!(i.focus && i.changeable_focus_with_click);
    assert_eq!(i.max_length, None);
    assert_eq!(i.placeholder, None);
    assert!(!TextFieldInput::default().is_last_text_ime);
    let _plugin = ImeTextFieldPlugin;
}

#[test]
fn placeholder_shows_while_empty() {
    let p = Some("type here".to_string());
    assert_eq!(placeholder_span(&String::new(), &p), "type here");
    assert_eq!(placeholder_span(&"x".to_string(), &p), "");
    assert_eq!(placeholder_span(&String::new(), &None), "");
}

#[test]
fn focus_follows_click() {
    let mut info = TextFieldInfo::default();
    change_focus_on_click(&mut info, 7, Some(8));
    assert!(!info.focus);
    change_focus_on_click(&mut info, 7, Some(7));
    assert!(info.focus);
    change_focus_on_click(&mut info, 7, None);
    assert!(!info.focus);
    let mut fixed = TextFieldInfo { changeable_focus_with_click: false, ..TextFieldInfo::default() };
    change_focus_on_click(&mut fixed, 7, None);
    assert!(fixed.focus);
}

#[test]
fn pointer_leaving() {
    assert_eq!(over_field_after_out(Some(4), 4), None);
    assert_eq!(over_field_after_out(Some(4), 5), Some(4));
    assert_eq!(over_field_after_out(None, 5), None);
}

#[test]
fn password_mask() {
    assert_eq!(change_passwd("a가 b".to_string()), "••••");
    assert_eq!(change_passwd(String::new()), "");
}

#[test]
fn cursor_blink() {
    let sel = "ab".to_string();
    assert_eq!(cursor_span(&sel, true, true, false, &"ab".to_string()), "|ab|");
    assert_eq!(cursor_span(&sel, true, true, true, &"ab".to_string()), "|••|");
    assert_eq!(cursor_span(&String::new(), true, true, false, &String::new()), "|");
    assert_eq!(cursor_span(&sel, true, false, false, &"|ab|".to_string()), "ab");
    assert_eq!(cursor_span(&sel, false, true, true, &"|ab|".to_string()), "••");
    assert_eq!(cursor_span(&sel, false, true, false, &"ab".to_string()), "ab");
}
