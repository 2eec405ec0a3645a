use bevy_bc_ime_text_field::text_field::Select;
use bevy_bc_ime_text_field::tool::{split_text, ToolString};

#[test]
fn split_text_three_parts() {
    let r = split_text("hello world".to_string(), Select(2, 5, None));
    assert_eq!(r[0], "he");
    assert_eq!(r[1], "llo");
    assert_eq!(r[2], " world");
}

#[test]
fn split_text_past_the_end() {
    let r = split_text("abc".to_string(), Select(2, 10, None));
    assert_eq!(r, ["ab".to_string(), "c".to_string(), String::new()]);
    let r = split_text("abc".to_string(), Select(7, 9, Some(7)));
    assert_eq!(r, ["abc".to_string(), String::new(), String::new()]);
}

#[test]
fn split_text_parts_make_the_text() {
    let text = "가나다 라마".to_string();
    let r = split_text(text.clone(), Select(1, 4, None));
    assert_eq!(r.concat(), text);
    assert_eq!(r[0], "가");
    assert_eq!(r[1], "나다 ");
    assert_eq!(r[2], "라마");
}

#[test]
fn split_chars_at_counts_characters() {
    let s = "가나다라".to_string();
    let r = s.split_chars_at(2);
    assert_eq!(r[0], "가나");
    assert_eq!(r[1], "다라");
    assert_eq!(s.size(), 4);
    let r = s.split_chars_at(9);
    assert_eq!(r[0], "가나다라");
    assert_eq!(r[1], "");
}

#[test]
fn front_pop_takes_first_char() {
    let mut s = "éab".to_string();
    assert_eq!(s.front_pop(), Some('é'));
    assert_eq!(s, "ab");
    let mut e = String::new();
    assert_eq!(e.front_pop(), None);
    assert_eq!(e, "");
}

#[test]
fn slice_takes_prefix() {
    let s = "hello".to_string();
    assert_eq!(s.slice(3), "hel");
    assert_eq!(s.slice(5), "hello");
    assert_eq!(s.slice(9), "hello");
    assert_eq!(s.slice(0), "");
}
