use bevy_bc_ime_text_field::input::input::{
    field_span, get_keys, is_enter_pressed, set_text_field, try_set_text_field, update_input_field,
    ImeEvent, InformType, KeyInform, KeyboardEvent,
};
use bevy_bc_ime_text_field::input::select_input::{Direction, SelectType};
use bevy_bc_ime_text_field::input::text_input::KeyType;
use bevy_bc_ime_text_field::input::Key;
use bevy_bc_ime_text_field::text_field::{Select, TextField, TextFieldInfo, TextFieldInput, TextFieldPosition};

fn text(s: &str) -> KeyInform {
    KeyInform { is_ime: None, is_finish: true, key: InformType::KeyType(KeyType::Text(s.to_string())) }
}

fn arrow(t: SelectType) -> KeyInform {
    KeyInform { is_ime: None, is_finish: true, key: InformType::SelectType(t) }
}

fn compose(s: &str, num: usize) -> KeyInform {
    KeyInform { is_ime: Some(num), is_finish: false, key: InformType::KeyType(KeyType::Text(s.to_string())) }
}

fn press(key: Key) -> KeyboardEvent {
    KeyboardEvent { pressed: true, logical_key: key }
}

fn field(t: &str, select: Select) -> TextField {
    let mut f = TextField::default();
    f.text = t.to_string();
    f.select = select;
    f
}

#[test]
fn keys_from_events() {
    let mut last = None;
    let ime = vec![
        ImeEvent::Preedit("가".to_string(), Some((3, 3))),
        ImeEvent::Preedit("각".to_string(), Some((3, 3))),
        ImeEvent::Preedit(String::new(), None),
        ImeEvent::Commit("각".to_string()),
        ImeEvent::Other,
    ];
    let kbd = vec![
        press(Key::Character("a".to_string())),
        KeyboardEvent { pressed: false, logical_key: Key::Character("b".to_string()) },
        press(Key::ArrowLeft),
        press(Key::Other),
    ];
    let list = get_keys(&mut last, &ime, &kbd, false, false);
    assert_eq!(
        list,
        vec![
            compose("가", 1),
            compose("각", 1),
            compose("", 1),
            text("각"),
            text("a"),
            arrow(SelectType::Left(false)),
        ]
    );
    assert_eq!(last, None);
}

#[test]
fn keys_remember_composition_across_frames() {
    let mut last = Some("ab".to_string());
    let ime = vec![ImeEvent::Preedit("abc".to_string(), Some((3, 3)))];
    let list = get_keys(&mut last, &ime, &vec![], false, false);
    assert_eq!(list, vec![compose("abc", 2)]);
    assert_eq!(last, Some("abc".to_string()));
    // A composition whose cursor is at its start is not remembered.
    let ime = vec![ImeEvent::Preedit("x".to_string(), Some((0, 0)))];
    let list = get_keys(&mut last, &ime, &vec![], false, false);
    assert_eq!(list, vec![compose("x", 3)]);
    assert_eq!(last, None);
    // An empty composition with a cursor gives nothing.
    let ime = vec![ImeEvent::Preedit(String::new(), Some((0, 0)))];
    assert_eq!(get_keys(&mut last, &ime, &vec![], false, false), vec![]);
}

#[test]
fn keys_with_modifiers() {
    let mut last = None;
    let kbd = vec![press(Key::ArrowRight), press(Key::Character("c".to_string())), press(Key::Backspace)];
    let list = get_keys(&mut last, &vec![], &kbd, true, true);
    assert_eq!(
        list,
        vec![
            arrow(SelectType::Extend(Direction::Right, true)),
            KeyInform { is_ime: None, is_finish: true, key: InformType::KeyType(KeyType::Copy) },
            KeyInform { is_ime: None, is_finish: true, key: InformType::KeyType(KeyType::CtrlBackSpace) },
        ]
    );
}

#[test]
fn typing_inserts_at_cursor() {
    let mut f = field("held", Select(3, 3, None));
    let mut input = TextFieldInput::default();
    set_text_field(&vec![text("l"), text("o")], &mut f, &mut input, &TextFieldInfo::default());
    assert_eq!(f.text, "hellod");
    assert_eq!((f.select.0, f.select.1, f.select.2), (5, 5, None));
}

#[test]
fn typing_replaces_selection() {
    let mut f = field("hello world", Select(6, 11, Some(6)));
    let mut input = TextFieldInput::default();
    set_text_field(&vec![text("there")], &mut f, &mut input, &TextFieldInfo::default());
    assert_eq!(f.text, "hello there");
    assert_eq!((f.select.0, f.select.1), (11, 11));
}

#[test]
fn max_length_cuts_text() {
    let mut f = field("abc", Select(3, 3, None));
    let mut input = TextFieldInput::default();
    let info = TextFieldInfo { max_length: Some(4), ..TextFieldInfo::default() };
    set_text_field(&vec![text("defg")], &mut f, &mut input, &info);
    assert_eq!(f.text, "abcd");
    assert_eq!((f.select.0, f.select.1), (4, 4));
    assert!(!input.is_last_text_ime);
}

#[test]
fn ime_composition_replaces_itself() {
    let mut f = field("a", Select(1, 1, None));
    let mut input = TextFieldInput::default();
    let info = TextFieldInfo::default();
    set_text_field(&vec![compose("가", 1)], &mut f, &mut input, &info);
    assert_eq!(f.text, "a가");
    assert!(input.is_last_text_ime);
    set_text_field(&vec![compose("각", 1)], &mut f, &mut input, &info);
    assert_eq!(f.text, "a각");
    set_text_field(&vec![compose("", 1), text("각")], &mut f, &mut input, &info);
    assert_eq!(f.text, "a각");
    assert!(!input.is_last_text_ime);
    assert_eq!((f.select.0, f.select.1), (2, 2));
}

#[test]
fn shift_selection_over_a_frame() {
    let mut f = field("hello", Select(5, 5, None));
    let mut input = TextFieldInput::default();
    let keys = vec![
        arrow(SelectType::Extend(Direction::Left, false)),
        arrow(SelectType::Extend(Direction::Left, false)),
    ];
    set_text_field(&keys, &mut f, &mut input, &TextFieldInfo::default());
    assert_eq!(f.text, "hello");
    assert_eq!((f.select.0, f.select.1, f.select.2), (3, 5, Some(5)));
}

#[test]
fn stopping_key_ends_the_frame() {
    let mut f = field("ab", Select(0, 0, None));
    let mut input = TextFieldInput::default();
    let keys = vec![arrow(SelectType::Up(true)), text("x")];
    set_text_field(&keys, &mut f, &mut input, &TextFieldInfo::default());
    assert_eq!(f.text, "ab");
    assert_eq!((f.select.0, f.select.1), (0, 0));
}

#[test]
fn try_reports_inputs_that_cannot_be_handled() {
    let mut f = field("ab", Select(2, 1, None));
    let mut input = TextFieldInput::default();
    assert!(!try_set_text_field(&vec![text("x")], &mut f, &mut input, &TextFieldInfo::default()));
    let mut f = field("ab\n\n\n", Select(0, 0, None));
    let keys = vec![text("\n\n"), arrow(SelectType::Down(false))];
    assert!(!try_set_text_field(&keys, &mut f, &mut input, &TextFieldInfo::default()));
    let mut f = field("ab", Select(0, 0, None));
    assert!(try_set_text_field(&vec![text("x")], &mut f, &mut input, &TextFieldInfo::default()));
    assert_eq!(f.text, "xab");
}

#[test]
fn enter_detection() {
    assert!(is_enter_pressed(&vec![text("a"), text("\n")]));
    assert!(!is_enter_pressed(&vec![text("a"), compose("\n", 1)]));
    assert!(!is_enter_pressed(&vec![]));
}

#[test]
fn update_input_field_reports_changes() {
    let mut f = field("a", Select(1, 1, None));
    let mut input = TextFieldInput::default();
    let unfocused = TextFieldInfo { focus: false, ..TextFieldInfo::default() };
    assert_eq!(update_input_field(&vec![text("b")], &mut f, &mut input, &unfocused), Some((false, false)));
    assert_eq!(f.text, "a");
    let info = TextFieldInfo::default();
    assert_eq!(update_input_field(&vec![], &mut f, &mut input, &info), Some((false, false)));
    assert_eq!(update_input_field(&vec![text("\n")], &mut f, &mut input, &info), Some((true, true)));
    assert_eq!(f.text, "a\n");
    assert_eq!(update_input_field(&vec![text("c")], &mut f, &mut input, &info), Some((true, false)));
}

#[test]
fn spans_show_parts() {
    let t = ["ab".to_string(), "cd".to_string(), "ef".to_string()];
    let (s, p) = field_span(&t, false, &TextFieldPosition::Front);
    assert_eq!((s.as_str(), p), ("ab", TextFieldPosition::Front));
    let (s, p) = field_span(&t, false, &TextFieldPosition::Select(String::new()));
    assert_eq!((s.as_str(), p), ("|cd|", TextFieldPosition::Select("cd".to_string())));
    let (s, p) = field_span(&t, true, &TextFieldPosition::Back);
    assert_eq!((s.as_str(), p), ("••", TextFieldPosition::Back));
    let e = ["ab".to_string(), String::new(), String::new()];
    let (s, p) = field_span(&e, true, &TextFieldPosition::Select("x".to_string()));
    assert_eq!((s.as_str(), p), ("|", TextFieldPosition::Select(String::new())));
}
