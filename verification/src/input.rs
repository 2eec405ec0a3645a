//! Keyboard and IME input: how each key changes a text field.
use vstd::prelude::*;

pub mod control;
pub mod input;
pub mod select_input;
pub mod select_list;
pub mod text_input;

verus! {

/// A key as the keyboard layout reports it (its logical meaning), as far as
/// text fields care.
#[derive(Debug)]
pub enum Key {
    Space,
    Backspace,
    Enter,
    Tab,
    ArrowLeft,
    ArrowRight,
    ArrowUp,
    ArrowDown,
    Character(String),
    Other,
}

impl Clone for Key {
    fn clone(&self) -> (r: Self)
        ensures
            r == *self,
    {
        match self {
            Key::Space => Key::Space,
            Key::Backspace => Key::Backspace,
            Key::Enter => Key::Enter,
            Key::Tab => Key::Tab,
            Key::ArrowLeft => Key::ArrowLeft,
            Key::ArrowRight => Key::ArrowRight,
            Key::ArrowUp => Key::ArrowUp,
            Key::ArrowDown => Key::ArrowDown,
            Key::Character(s) => Key::Character(s.clone()),
            Key::Other => Key::Other,
        }
    }
}

} // verus!
