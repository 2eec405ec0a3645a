//! An IME-aware text field: the editing model behind a single-line or
//! multi-line text input, with a selection, word and line navigation,
//! clipboard commands, an undo history and a password mask.
//!
//! The text of a field is kept as three parts: the text in front of the
//! selection, the selected text and the text behind it. Every keyboard
//! command is a function from these three parts (and the field's
//! selection record) to new parts.
use vstd::prelude::*;

pub mod input;
pub mod selection;
pub mod text_field;
pub mod text_field_style;
pub mod tool;

verus! {

/// The plugin marker that an application installs to get text fields.
/// The engine glue that registers the systems lives outside the library.
pub struct ImeTextFieldPlugin;

} // verus!
