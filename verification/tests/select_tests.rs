use bevy_bc_ime_text_field::input::select_input::{
    get_select_informtype, get_select_shift_informtype, select_step_allowed, set_select_text_list, Direction,
    SelectType,
};
use bevy_bc_ime_text_field::input::select_list::{
    get_down_usize, get_up_usize, set_down_extend, set_left_area, set_left_area_ctrl, set_left_extend,
    set_right_area, set_right_area_ctrl, set_right_extend, set_up_extend,
};
use bevy_bc_ime_text_field::input::input::InformType;
use bevy_bc_ime_text_field::input::Key;
use bevy_bc_ime_text_field::text_field::{Select, TextField};

fn parts(a: &str, b: &str, c: &str) -> [String; 3] {
    [a.to_string(), b.to_string(), c.to_string()]
}

fn field(select: Select) -> TextField {
    let mut f = TextField::default();
    f.select = select;
    f
}

#[test]
fn up_usize_moves_to_line_above() {
    let mut t = parts("abc\ndefg\nhi", "", "");
    assert_eq!(get_up_usize(&mut t, 6), 2);
    assert_eq!(get_up_usize(&mut t, 10), 5);
    assert_eq!(get_up_usize(&mut t, 2), 2);
    assert_eq!(get_up_usize(&mut t, 3), 3);
    assert_eq!(get_up_usize(&mut t, 20), 20);
    // A shorter line above: the cursor goes to its end.
    let mut t = parts("ab\ncdefg", "", "");
    assert_eq!(get_up_usize(&mut t, 8), 2);
    // An empty first line above keeps the cursor.
    let mut t = parts("\nab", "", "");
    assert_eq!(get_up_usize(&mut t, 2), 2);
    assert_eq!(t, parts("\nab", "", ""));
}

#[test]
fn down_usize_moves_to_line_below() {
    let mut t = parts("abc", "\ndefg", "\nhi");
    assert_eq!(get_down_usize(&mut t, 2), 6);
    assert_eq!(get_down_usize(&mut t, 7), 11);
    assert_eq!(get_down_usize(&mut t, 10), 11);
    assert_eq!(get_down_usize(&mut t, 0), 4);
    // A carriage return before a line break is not part of the line.
    let mut t = parts("ab\r\ncd", "", "");
    assert_eq!(get_down_usize(&mut t, 1), 4);
}

#[test]
fn area_moves() {
    let mut t = parts("ab", "cd", "ef");
    set_left_area(&mut t, "x".to_string());
    assert_eq!(t, parts("ab", "cd", "xcdef"));
    let mut t = parts("ab", "cd", "ef");
    set_right_area(&mut t, "x".to_string());
    assert_eq!(t, parts("abcdx", "cd", "ef"));
    let mut t = parts("ab", "cd", "ef");
    set_left_area_ctrl(&mut t, ["a".to_string(), "b".to_string()]);
    assert_eq!(t, parts("a", "cd", "bcdef"));
    let mut t = parts("ab", "cd", "ef");
    set_right_area_ctrl(&mut t, ["e".to_string(), "f".to_string()]);
    assert_eq!(t, parts("abcde", "cd", "f"));
}

#[test]
fn extends() {
    let mut t = parts("hello world", "", "");
    set_left_extend(&mut t, &false);
    assert_eq!(t, parts("hello worl", "d", ""));
    set_left_extend(&mut t, &true);
    assert_eq!(t, parts("hello ", "world", ""));
    let mut t = parts("", "", "foo bar");
    set_right_extend(&mut t, &false);
    assert_eq!(t, parts("", "f", "oo bar"));
    set_right_extend(&mut t, &true);
    assert_eq!(t, parts("", "foo ", "bar"));
    let mut e = parts("", "x", "");
    set_left_extend(&mut e, &false);
    assert_eq!(e, parts("", "x", ""));
}

#[test]
fn up_and_down_extend() {
    let mut t = parts("abc\nde", "", "");
    let mut f = field(Select(6, 6, None));
    set_up_extend(&mut t, &mut f, &false);
    assert_eq!(t, parts("ab", "c\nde", ""));
    let mut t = parts("ab", "", "c\ndef");
    let mut f = field(Select(2, 2, None));
    set_down_extend(&mut t, &mut f, &false);
    assert_eq!(t, parts("ab", "c\nde", "f"));
    let mut t = parts("ab", "", "c\ndef");
    set_down_extend(&mut t, &mut f, &true);
    assert_eq!(t, parts("ab", "c", "\ndef"));
}

#[test]
fn informtypes() {
    let mut k = None;
    get_select_informtype(Key::ArrowLeft, &mut k, true);
    assert_eq!(k, Some(InformType::SelectType(SelectType::Left(true))));
    let mut k = None;
    get_select_informtype(Key::Space, &mut k, true);
    assert_eq!(k, None);
    let mut k = None;
    get_select_shift_informtype(Key::ArrowDown, &mut k, false);
    assert_eq!(k, Some(InformType::SelectType(SelectType::Extend(Direction::Down, false))));
}

#[test]
fn left_moves_cursor_and_drops_selection() {
    let mut t = parts("hello", "", "");
    let mut f = field(Select(5, 5, None));
    assert!(!set_select_text_list(&SelectType::Left(false), &mut t, &mut f));
    assert_eq!(t, parts("hell", "", "o"));
    let mut t = parts("he", "ll", "o");
    let mut f = field(Select(2, 4, Some(2)));
    assert!(!set_select_text_list(&SelectType::Left(false), &mut t, &mut f));
    assert_eq!(t, parts("he", "", "llo"));
    let mut t = parts("he", "ll", "o");
    assert!(!set_select_text_list(&SelectType::Right(false), &mut t, &mut f));
    assert_eq!(t, parts("hell", "", "o"));
}

#[test]
fn ctrl_moves_by_words() {
    let mut t = parts("hello world", "", " again");
    let mut f = field(Select(11, 11, None));
    set_select_text_list(&SelectType::Left(true), &mut t, &mut f);
    assert_eq!(t, parts("hello ", "", "world again"));
    let mut t = parts("", "", "hello world");
    let mut f = field(Select(0, 0, None));
    set_select_text_list(&SelectType::Right(true), &mut t, &mut f);
    assert_eq!(t, parts("hello ", "", "world"));
}

#[test]
fn ctrl_up_and_down_stop_at_the_edges() {
    let mut t = parts("", "", "abc");
    let mut f = field(Select(0, 0, None));
    assert!(set_select_text_list(&SelectType::Up(true), &mut t, &mut f));
    assert_eq!(t, parts("", "", "abc"));
    let mut t = parts("abc", "", "");
    let mut f = field(Select(3, 3, None));
    assert!(set_select_text_list(&SelectType::Down(true), &mut t, &mut f));
    let mut t = parts("ab\ncd", "", "");
    assert!(!set_select_text_list(&SelectType::Up(true), &mut t, &mut f));
    assert_eq!(t, parts("ab\n", "", "cd"));
}

#[test]
fn up_and_down_move_between_lines() {
    let mut t = parts("abc\nde", "", "");
    let mut f = field(Select(6, 6, None));
    set_select_text_list(&SelectType::Up(false), &mut t, &mut f);
    assert_eq!(t, parts("ab", "", "c\nde"));
    let mut t = parts("ab", "", "c\ndef");
    let mut f = field(Select(2, 2, None));
    set_select_text_list(&SelectType::Down(false), &mut t, &mut f);
    assert_eq!(t, parts("abc\nde", "", "f"));
}

#[test]
fn shift_extends_and_anchors() {
    let mut t = parts("hello", "", "");
    let mut f = field(Select(5, 5, None));
    assert!(!set_select_text_list(&SelectType::Extend(Direction::Left, false), &mut t, &mut f));
    assert_eq!(t, parts("hell", "o", ""));
    assert_eq!(f.select.2, Some(5));
    // A selection anchored at its start shrinks from the right on Shift+Left.
    let mut t = parts("he", "ll", "o");
    let mut f = field(Select(2, 4, Some(2)));
    set_select_text_list(&SelectType::Extend(Direction::Left, false), &mut t, &mut f);
    assert_eq!(t, parts("he", "l", "lo"));
    assert_eq!(f.select.2, Some(2));
    // Nothing to extend into: the frame's input stops.
    let mut t = parts("", "", "x");
    let mut f = field(Select(0, 0, None));
    assert!(set_select_text_list(&SelectType::Extend(Direction::Left, false), &mut t, &mut f));
    assert_eq!(f.select.2, None);
}

#[test]
fn shift_right_shrinks_from_left() {
    let mut t = parts("h", "ell", "o");
    let mut f = field(Select(1, 4, Some(4)));
    set_select_text_list(&SelectType::Extend(Direction::Right, false), &mut t, &mut f);
    assert_eq!(t, parts("he", "ll", "o"));
}

#[test]
fn step_allowed_detects_underflow() {
    // A Shift+Left that would shrink an empty selection cannot be handled.
    let mut t = parts("ab", "", "cd");
    assert!(!select_step_allowed(&SelectType::Extend(Direction::Left, false), &mut t, Select(2, 3, Some(2))));
    assert!(select_step_allowed(&SelectType::Left(false), &mut t, Select(2, 3, Some(2))));
    // Down with a stale selection far behind the cursor.
    let mut t = parts("\n\n", "", "\n\n\n");
    assert!(!select_step_allowed(&SelectType::Down(false), &mut t, Select(0, 0, None)));
}

#[test]
fn left_then_right_returns() {
    let mut t = parts("ab", "", "cd");
    let mut f = field(Select(2, 2, None));
    set_select_text_list(&SelectType::Left(false), &mut t, &mut f);
    assert_eq!(t, parts("a", "", "bcd"));
    set_select_text_list(&SelectType::Right(false), &mut t, &mut f);
    assert_eq!(t, parts("ab", "", "cd"));
}

#[test]
fn arrows_keep_the_text() {
    let keys = [
        SelectType::Left(true),
        SelectType::Right(true),
        SelectType::Up(false),
        SelectType::Down(false),
        SelectType::Extend(Direction::Left, true),
        SelectType::Extend(Direction::Right, false),
        SelectType::Extend(Direction::Up, true),
    ];
    for key in keys.iter() {
        let mut t = parts("one two\nthree", "", " four\nfive");
        let mut f = field(Select(13, 13, None));
        set_select_text_list(key, &mut t, &mut f);
        assert_eq!(t.concat(), "one two\nthree four\nfive");
    }
}
