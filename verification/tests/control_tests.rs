use bevy_bc_ime_text_field::input::control::{
    classify, get_back_ctrl, get_ctrl_list, get_down_ctrl, get_front_ctrl, get_up_ctrl, TextDataType,
};

fn pair(a: &str, b: &str) -> [String; 2] {
    [a.to_string(), b.to_string()]
}

#[test]
fn classify_kinds() {
    assert_eq!(classify(' '), TextDataType::Blank);
    assert_eq!(classify('\t'), TextDataType::Tab);
    assert_eq!(classify('\n'), TextDataType::NextLine);
    assert_eq!(classify(','), TextDataType::End);
    assert_eq!(classify('.'), TextDataType::End);
    assert_eq!(classify('a'), TextDataType::Word);
    assert_eq!(classify('가'), TextDataType::Word);
}

#[test]
fn ctrl_list_from_end_and_start() {
    let r = get_ctrl_list("hello world".to_string(), true);
    assert_eq!((r.0.as_str(), r.1.as_str(), r.2), ("hello ", "world", Some(TextDataType::Word)));
    let r = get_ctrl_list("hello world".to_string(), false);
    assert_eq!((r.0.as_str(), r.1.as_str(), r.2), ("hello", " world", Some(TextDataType::Word)));
    let r = get_ctrl_list("abc".to_string(), false);
    assert_eq!((r.0.as_str(), r.1.as_str(), r.2), ("", "abc", Some(TextDataType::Word)));
    let r = get_ctrl_list(String::new(), true);
    assert_eq!((r.0.as_str(), r.1.as_str(), r.2), ("", "", None));
}

#[test]
fn front_ctrl_jumps_before_word() {
    assert_eq!(get_front_ctrl("hello world".to_string()), pair("hello ", "world"));
    assert_eq!(get_front_ctrl("hello world  ".to_string()), pair("hello ", "world  "));
    assert_eq!(get_front_ctrl("abc".to_string()), pair("", "abc"));
    assert_eq!(get_front_ctrl("foo.bar".to_string()), pair("foo.", "bar"));
    assert_eq!(get_front_ctrl(String::new()), pair("", ""));
    assert_eq!(get_front_ctrl("   ".to_string()), pair("", "   "));
}

#[test]
fn back_ctrl_jumps_after_word() {
    assert_eq!(get_back_ctrl("hello world".to_string()), pair("hello ", "world"));
    assert_eq!(get_back_ctrl("abc".to_string()), pair("abc", ""));
    assert_eq!(get_back_ctrl("  abc".to_string()), pair("  ", "abc"));
    assert_eq!(get_back_ctrl("abc.def".to_string()), pair("abc", ".def"));
    assert_eq!(get_back_ctrl("...".to_string()), pair("...", ""));
    assert_eq!(get_back_ctrl(String::new()), pair("", ""));
}

#[test]
fn up_ctrl_splits_last_line() {
    assert_eq!(get_up_ctrl("ab\ncd".to_string()), pair("ab\n", "cd"));
    assert_eq!(get_up_ctrl("ab\n".to_string()), pair("ab", "\n"));
    assert_eq!(get_up_ctrl("abc".to_string()), pair("", "abc"));
    assert_eq!(get_up_ctrl(String::new()), pair("", ""));
}

#[test]
fn down_ctrl_splits_first_line() {
    assert_eq!(get_down_ctrl("ab\ncd".to_string()), pair("ab", "\ncd"));
    assert_eq!(get_down_ctrl("\nab".to_string()), pair("\n", "ab"));
    assert_eq!(get_down_ctrl("abc".to_string()), pair("abc", ""));
    assert_eq!(get_down_ctrl("ab\ncd\nef".to_string()), pair("ab", "\ncd\nef"));
    assert_eq!(get_down_ctrl(String::new()), pair("", ""));
}

#[test]
fn down_ctrl_drops_a_final_line_break() {
    // The one case where the two parts do not make the text again.
    assert_eq!(get_down_ctrl("ab\n".to_string()), pair("ab", ""));
}
