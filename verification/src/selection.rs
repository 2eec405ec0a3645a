//! The blinking cursor: what the selection part of a field shows.
use vstd::prelude::*;

use crate::text_field_style::{change_passwd, masked};
use crate::tool::join2;

verus! {

/// The selected text as shown: masked in a password field.
pub open spec fn shown(text: Seq<char>, password_style: bool) -> Seq<char> {
    if password_style {
        masked(text)
    } else {
        text
    }
}

/// The selection with the cursor drawn: a bar for an empty selection, the
/// (shown) selected text between two bars otherwise.
pub open spec fn with_cursor(select: Seq<char>, password_style: bool) -> Seq<char> {
    if select.len() == 0 {
        seq!['|']
    } else {
        seq!['|'] + shown(select, password_style) + seq!['|']
    }
}

/// The selection with the cursor drawn (see `with_cursor`).
pub fn cursor_text(select: &String, password_style: bool) -> (r: String)
    ensures
        r@ == with_cursor(select@, password_style),
{
    let mut bar = String::new();
    crate::tool::push_char(&mut bar, '|');
    if select.as_str().is_empty() {
        return bar;
    }
    let inner = if password_style {
        change_passwd(select.clone())
    } else {
        select.clone()
    };
    let left = join2(bar.as_str(), inner.as_str());
    join2(left.as_str(), bar.as_str())
}

/// What the selection part of a field shows in this frame, from the text
/// it shows now: with the cursor while the field has the focus and the
/// cursor is to be seen (the text changed a moment ago, or the blink is in
/// its visible phase); else the shown selected text.
pub fn cursor_span(select: &String, focus: bool, show_cursor: bool, password_style: bool, span: &String) -> (r: String)
    ensures
        r@ == (if focus && show_cursor {
            with_cursor(select@, password_style)
        } else if span@ != select@ {
            shown(select@, password_style)
        } else {
            span@
        }),
{
    if focus && show_cursor {
        return cursor_text(select, password_style);
    }
    if *span != *select {
        if password_style {
            change_passwd(select.clone())
        } else {
            select.clone()
        }
    } else {
        span.clone()
    }
}

} // verus!
