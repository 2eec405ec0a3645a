use bevy_bc_ime_text_field::input::input::InformType;
use bevy_bc_ime_text_field::input::text_input::{
    apply_text_key, ctrl_key_from_upper, get_text_inform_type, set_text_list, ClipboardOutcome, KeyType,
};
use bevy_bc_ime_text_field::input::Key;
use bevy_bc_ime_text_field::text_field::{Select, TextField};
use undo_2::CommandItem;

fn parts(a: &str, b: &str, c: &str) -> [String; 3] {
    [a.to_string(), b.to_string(), c.to_string()]
}

fn field(select: Select) -> TextField {
    let mut f = TextField::default();
    f.select = select;
    f
}

fn inform(key: Key, ctrl: bool, shift: bool) -> Option<InformType> {
    let mut k = None;
    get_text_inform_type(key, &mut k, ctrl, shift);
    k
}

#[test]
fn keys_to_commands() {
    assert_eq!(inform(Key::Space, false, false), Some(InformType::KeyType(KeyType::Space)));
    assert_eq!(inform(Key::Backspace, false, false), Some(InformType::KeyType(KeyType::BackSpace)));
    assert_eq!(inform(Key::Backspace, true, false), Some(InformType::KeyType(KeyType::CtrlBackSpace)));
    assert_eq!(
        inform(Key::Character("a".to_string()), false, false),
        Some(InformType::KeyType(KeyType::Text("a".to_string())))
    );
    assert_eq!(inform(Key::Enter, false, false), Some(InformType::KeyType(KeyType::Text("\n".to_string()))));
    assert_eq!(inform(Key::Tab, false, false), Some(InformType::KeyType(KeyType::Text("\t".to_string()))));
    assert_eq!(inform(Key::ArrowLeft, false, false), None);
}

#[test]
fn ctrl_shortcuts_ignore_case() {
    assert_eq!(inform(Key::Character("v".to_string()), true, false), Some(InformType::KeyType(KeyType::Paste)));
    assert_eq!(inform(Key::Character("c".to_string()), true, false), Some(InformType::KeyType(KeyType::Copy)));
    assert_eq!(inform(Key::Character("x".to_string()), true, false), Some(InformType::KeyType(KeyType::Cut)));
    assert_eq!(inform(Key::Character("a".to_string()), true, false), Some(InformType::KeyType(KeyType::AllSelect)));
    assert_eq!(inform(Key::Character("z".to_string()), true, false), Some(InformType::KeyType(KeyType::Undo)));
    assert_eq!(inform(Key::Character("Z".to_string()), true, true), Some(InformType::KeyType(KeyType::Redo)));
    assert_eq!(inform(Key::Character("y".to_string()), true, false), Some(InformType::KeyType(KeyType::Redo)));
    assert_eq!(inform(Key::Character("q".to_string()), true, false), None);
}

#[test]
fn ctrl_key_from_upper_cases() {
    assert_eq!(ctrl_key_from_upper(&"V".to_string(), false), Some(KeyType::Paste));
    assert_eq!(ctrl_key_from_upper(&"v".to_string(), false), None);
    assert_eq!(ctrl_key_from_upper(&"Z".to_string(), true), Some(KeyType::Redo));
    assert_eq!(ctrl_key_from_upper(&"VV".to_string(), false), None);
}

#[test]
fn typing_replaces_selection_and_records() {
    let mut t = parts("ab", "cd", "ef");
    let mut f = field(Select(2, 4, Some(2)));
    apply_text_key(&KeyType::Text("X".to_string()), &mut t, &mut f, &ClipboardOutcome::Closed);
    assert_eq!(t, parts("abX", "", "ef"));
    assert_eq!(f.command.len(), 1);
    match &f.command[0] {
        CommandItem::Command(c) => {
            assert_eq!(c.before, "cd");
            assert_eq!(c.after, "X");
            assert_eq!(c.select.0, 2);
        },
        CommandItem::Undo(_) => panic!("an edit was expected"),
    }
    apply_text_key(&KeyType::Space, &mut t, &mut f, &ClipboardOutcome::Closed);
    assert_eq!(t, parts("abX ", "", "ef"));
}

#[test]
fn backspace_deletes() {
    let mut t = parts("abc", "", "d");
    let mut f = field(Select(3, 3, None));
    apply_text_key(&KeyType::BackSpace, &mut t, &mut f, &ClipboardOutcome::Closed);
    assert_eq!(t, parts("ab", "", "d"));
    let mut t = parts("ab", "cd", "e");
    let mut f = field(Select(2, 4, Some(2)));
    apply_text_key(&KeyType::BackSpace, &mut t, &mut f, &ClipboardOutcome::Closed);
    assert_eq!(t, parts("ab", "", "e"));
    let mut t = parts("", "", "e");
    let mut f = field(Select(0, 0, None));
    apply_text_key(&KeyType::BackSpace, &mut t, &mut f, &ClipboardOutcome::Closed);
    assert_eq!(t, parts("", "", "e"));
    assert_eq!(f.command.len(), 1);
}

#[test]
fn ctrl_backspace_deletes_word() {
    let mut t = parts("hello world", "", "!");
    let mut f = field(Select(11, 11, None));
    apply_text_key(&KeyType::CtrlBackSpace, &mut t, &mut f, &ClipboardOutcome::Closed);
    assert_eq!(t, parts("hello ", "", "!"));
}

#[test]
fn clipboard_commands() {
    let mut t = parts("ab", "cd", "ef");
    let mut f = field(Select(2, 4, Some(2)));
    apply_text_key(&KeyType::Copy, &mut t, &mut f, &ClipboardOutcome::Opened(None));
    assert_eq!(t, parts("ab", "cd", "ef"));
    assert_eq!(f.command.len(), 0);
    apply_text_key(&KeyType::Copy, &mut t, &mut f, &ClipboardOutcome::Closed);
    assert_eq!(t, parts("ab", "", "ef"));
    let mut t = parts("ab", "cd", "ef");
    apply_text_key(&KeyType::Cut, &mut t, &mut f, &ClipboardOutcome::Opened(None));
    assert_eq!(t, parts("ab", "", "ef"));
    assert_eq!(f.command.len(), 1);
    let mut t = parts("ab", "cd", "ef");
    apply_text_key(&KeyType::Paste, &mut t, &mut f, &ClipboardOutcome::Opened(Some("ZZ".to_string())));
    assert_eq!(t, parts("abZZ", "", "ef"));
    assert_eq!(f.command.len(), 2);
    let mut t = parts("ab", "cd", "ef");
    apply_text_key(&KeyType::Paste, &mut t, &mut f, &ClipboardOutcome::Opened(None));
    assert_eq!(t, parts("ab", "", "ef"));
    assert_eq!(f.command.len(), 2);
}

#[test]
fn select_all() {
    let mut t = parts("ab", "cd", "ef");
    let mut f = field(Select(2, 4, Some(2)));
    apply_text_key(&KeyType::AllSelect, &mut t, &mut f, &ClipboardOutcome::Closed);
    assert_eq!(t, parts("", "abcdef", ""));
}

#[test]
fn undo_then_redo_restores_history() {
    let mut t = parts("", "", "");
    let mut f = field(Select(0, 0, None));
    apply_text_key(&KeyType::Text("a".to_string()), &mut t, &mut f, &ClipboardOutcome::Closed);
    assert_eq!(f.command.len(), 1);
    apply_text_key(&KeyType::Undo, &mut t, &mut f, &ClipboardOutcome::Closed);
    assert_eq!(f.command.len(), 2);
    assert!(matches!(f.command[1], CommandItem::Undo(0)));
    // Undo takes the typed text back.
    assert_eq!(t, parts("", "", ""));
    apply_text_key(&KeyType::Redo, &mut t, &mut f, &ClipboardOutcome::Closed);
    assert_eq!(f.command.len(), 1);
    assert!(matches!(f.command[0], CommandItem::Command(_)));
    // Redo types it again.
    assert_eq!(t, parts("a", "", ""));
    // Redo with nothing undone changes nothing but the selection.
    apply_text_key(&KeyType::Redo, &mut t, &mut f, &ClipboardOutcome::Closed);
    assert_eq!(f.command.len(), 1);
    assert_eq!(t, parts("a", "", ""));
}

#[test]
fn undo_puts_back_replaced_selection() {
    let mut tf = TextField::default();
    tf.text = "ab".to_string() + "cd" + "ef";
    tf.select = Select(2, 4, None);
    let mut tl = parts("ab", "cd", "ef");
    set_text_list(&KeyType::Text("XYZ".to_string()), &mut tl, &mut tf);
    assert_eq!(tl, parts("abXYZ", "", "ef"));
    set_text_list(&KeyType::Undo, &mut tl, &mut tf);
    assert_eq!(tl.concat(), "abcdef");
    assert_eq!(tl, parts("ab", "cd", "ef"));
    set_text_list(&KeyType::Redo, &mut tl, &mut tf);
    assert_eq!(tl, parts("abXYZ", "", "ef"));
}

#[test]
fn undo_puts_back_deleted_text() {
    let mut t = parts("abc", "", "d");
    let mut f = field(Select(3, 3, None));
    apply_text_key(&KeyType::BackSpace, &mut t, &mut f, &ClipboardOutcome::Closed);
    assert_eq!(t, parts("ab", "", "d"));
    match &f.command[0] {
        CommandItem::Command(c) => {
            assert_eq!(c.before, "c");
            assert_eq!(c.after, "");
            assert_eq!((c.select.0, c.select.1), (2, 3));
        },
        CommandItem::Undo(_) => panic!("an edit was expected"),
    }
    apply_text_key(&KeyType::Undo, &mut t, &mut f, &ClipboardOutcome::Closed);
    assert_eq!(t, parts("ab", "c", "d"));
    apply_text_key(&KeyType::Redo, &mut t, &mut f, &ClipboardOutcome::Closed);
    assert_eq!(t, parts("ab", "", "d"));

    let mut t = parts("hello world", "", "!");
    let mut f = field(Select(11, 11, None));
    apply_text_key(&KeyType::CtrlBackSpace, &mut t, &mut f, &ClipboardOutcome::Closed);
    assert_eq!(t, parts("hello ", "", "!"));
    apply_text_key(&KeyType::Undo, &mut t, &mut f, &ClipboardOutcome::Closed);
    assert_eq!(t, parts("hello ", "world", "!"));

    let mut t = parts("ab", "cd", "ef");
    let mut f = field(Select(2, 4, Some(2)));
    apply_text_key(&KeyType::Cut, &mut t, &mut f, &ClipboardOutcome::Opened(Some("cd".to_string())));
    assert_eq!(t, parts("ab", "", "ef"));
    apply_text_key(&KeyType::Undo, &mut t, &mut f, &ClipboardOutcome::Closed);
    assert_eq!(t, parts("ab", "cd", "ef"));
}

#[test]
fn undo_twice_takes_back_two_edits() {
    let mut t = parts("", "", "");
    let mut f = field(Select(0, 0, None));
    apply_text_key(&KeyType::Text("a".to_string()), &mut t, &mut f, &ClipboardOutcome::Closed);
    apply_text_key(&KeyType::Text("b".to_string()), &mut t, &mut f, &ClipboardOutcome::Closed);
    assert_eq!(t, parts("ab", "", ""));
    apply_text_key(&KeyType::Undo, &mut t, &mut f, &ClipboardOutcome::Closed);
    assert_eq!(t, parts("a", "", ""));
    apply_text_key(&KeyType::Undo, &mut t, &mut f, &ClipboardOutcome::Closed);
    assert_eq!(t, parts("", "", ""));
    // Nothing is left to undo.
    apply_text_key(&KeyType::Undo, &mut t, &mut f, &ClipboardOutcome::Closed);
    assert_eq!(t, parts("", "", ""));
    apply_text_key(&KeyType::Redo, &mut t, &mut f, &ClipboardOutcome::Closed);
    assert_eq!(t, parts("a", "", ""));
}

#[test]
fn set_text_list_without_clipboard_keys() {
    let mut t = parts("ab", "", "");
    let mut f = field(Select(2, 2, None));
    set_text_list(&KeyType::Text("c".to_string()), &mut t, &mut f);
    assert_eq!(t, parts("abc", "", ""));
    set_text_list(&KeyType::AllSelect, &mut t, &mut f);
    assert_eq!(t, parts("", "abc", ""));
}
