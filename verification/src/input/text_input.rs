//! Keys that edit text: typing, deleting, the clipboard, select-all and
//! undo/redo.
use vstd::prelude::*;

use super::control::{front_ctrl_point, get_front_ctrl, lemma_front_ctrl_point_bound};
use super::input::{opt_inform, InformType, InformView};
use super::Key;
use crate::text_field::{
    action_view, actions_view, commands_push, commands_redo, commands_undo, history_of,
    redo_actions_known, redo_actions_of, redo_effect, undo_actions_known, undo_actions_of,
    undo_effect, Change, HistoryItem, Select, TextField, UndoAction,
};
use crate::tool::{
    chars_of, char_string, clamp, concat3, concat_chars, join2, pop_char, string_of, sub_chars,
    ToolString,
};

verus! {

/// An editing command.
#[derive(PartialEq, Eq, Debug)]
pub enum KeyType {
    BackSpace,
    CtrlBackSpace,
    Space,
    Copy,
    Paste,
    Cut,
    AllSelect,
    Undo,
    Redo,
    Text(String),
}

/// An editing command, with its text as characters.
pub enum KeyTypeView {
    BackSpace,
    CtrlBackSpace,
    Space,
    Copy,
    Paste,
    Cut,
    AllSelect,
    Undo,
    Redo,
    Text(Seq<char>),
}

impl View for KeyType {
    type V = KeyTypeView;

    open spec fn view(&self) -> KeyTypeView {
        match self {
            KeyType::BackSpace => KeyTypeView::BackSpace,
            KeyType::CtrlBackSpace => KeyTypeView::CtrlBackSpace,
            KeyType::Space => KeyTypeView::Space,
            KeyType::Copy => KeyTypeView::Copy,
            KeyType::Paste => KeyTypeView::Paste,
            KeyType::Cut => KeyTypeView::Cut,
            KeyType::AllSelect => KeyTypeView::AllSelect,
            KeyType::Undo => KeyTypeView::Undo,
            KeyType::Redo => KeyTypeView::Redo,
            KeyType::Text(t) => KeyTypeView::Text(t@),
        }
    }
}

/// What the system clipboard gave: it could not be opened, or it was opened,
/// with the text it held (for a paste) or the text it was handed (for a copy
/// or a cut), if any.
pub enum ClipboardOutcome {
    Closed,
    Opened(Option<String>),
}

/// The string in upper case (std's `str::to_uppercase`).
pub uninterp spec fn uppercase_of(s: Seq<char>) -> Seq<char>;

/// `str::to_uppercase`: the upper-case form of the string, named
/// `uppercase_of`; it depends on the string alone. Nothing more is stated of
/// it.
#[verifier::external_body]
fn to_uppercase(s: &str) -> (r: String)
    ensures
        r@ == uppercase_of(s@),
{
    s.to_uppercase()
}

/// The command that Ctrl with a character asks for, from the character in
/// upper case: V pastes, C copies, X cuts, A selects all, Y or Shift+Z
/// redoes, Z undoes.
pub open spec fn ctrl_key_type(msg: Seq<char>, is_shift: bool) -> Option<KeyTypeView> {
    if msg == seq!['V'] {
        Some(KeyTypeView::Paste)
    } else if msg == seq!['C'] {
        Some(KeyTypeView::Copy)
    } else if msg == seq!['X'] {
        Some(KeyTypeView::Cut)
    } else if msg == seq!['A'] {
        Some(KeyTypeView::AllSelect)
    } else if msg == seq!['Y'] || (msg == seq!['Z'] && is_shift) {
        Some(KeyTypeView::Redo)
    } else if msg == seq!['Z'] {
        Some(KeyTypeView::Undo)
    } else {
        None
    }
}

fn is_single(msg: &String, c: char) -> (r: bool)
    ensures
        r == (msg@ == seq![c]),
{
    let s = msg.as_str();
    if s.unicode_len() != 1 {
        return false;
    }
    let first = s.get_char(0);
    assert(first == c ==> msg@ =~= seq![c]);
    first == c
}

/// The command that Ctrl with a character asks for, given the character
/// already in upper case.
pub fn ctrl_key_from_upper(msg: &String, is_shift: bool) -> (r: Option<KeyType>)
    ensures
        match r {
            Some(k) => ctrl_key_type(msg@, is_shift) == Some(k@),
            None => ctrl_key_type(msg@, is_shift) is None,
        },
{
    if is_single(msg, 'V') {
        Some(KeyType::Paste)
    } else if is_single(msg, 'C') {
        Some(KeyType::Copy)
    } else if is_single(msg, 'X') {
        Some(KeyType::Cut)
    } else if is_single(msg, 'A') {
        Some(KeyType::AllSelect)
    } else if is_single(msg, 'Y') || (is_single(msg, 'Z') && is_shift) {
        Some(KeyType::Redo)
    } else if is_single(msg, 'Z') {
        Some(KeyType::Undo)
    } else {
        None
    }
}

/// The command that a key asks for (arrow keys aside), or `prev` when it
/// asks for none.
pub open spec fn text_inform_of(key: Key, is_ctrl: bool, is_shift: bool, prev: Option<InformView>) -> Option<InformView> {
    match key {
        Key::Space => Some(InformView::Key(KeyTypeView::Space)),
        Key::Backspace => if is_ctrl {
            Some(InformView::Key(KeyTypeView::CtrlBackSpace))
        } else {
            Some(InformView::Key(KeyTypeView::BackSpace))
        },
        Key::Character(msg) => if is_ctrl {
            match ctrl_key_type(uppercase_of(msg@), is_shift) {
                Some(k) => Some(InformView::Key(k)),
                None => prev,
            }
        } else {
            Some(InformView::Key(KeyTypeView::Text(msg@)))
        },
        Key::Enter => Some(InformView::Key(KeyTypeView::Text(seq!['\n']))),
        Key::Tab => Some(InformView::Key(KeyTypeView::Text(seq!['\t']))),
        _ => prev,
    }
}

/// Sets `add_key` to the command that a key asks for, arrow keys aside:
/// Space, Backspace (with Ctrl: delete a word), a character (with Ctrl: a
/// shortcut), Enter (a line break) and Tab.
pub fn get_text_inform_type(key: Key, add_key: &mut Option<InformType>, is_ctrl: bool, is_shift: bool)
    ensures
        opt_inform(*final(add_key)) == text_inform_of(key, is_ctrl, is_shift, opt_inform(*old(add_key))),
{
    match key {
        Key::Space => {
            *add_key = Some(InformType::KeyType(KeyType::Space));
        },
        Key::Backspace => {
            if is_ctrl {
                *add_key = Some(InformType::KeyType(KeyType::CtrlBackSpace));
            } else {
                *add_key = Some(InformType::KeyType(KeyType::BackSpace));
            }
        },
        Key::Character(msg) => {
            if is_ctrl {
                set_ctrl_key(add_key, msg, is_shift);
            } else {
                *add_key = Some(InformType::KeyType(KeyType::Text(msg)));
            }
        },
        Key::Enter => {
            *add_key = Some(InformType::KeyType(KeyType::Text(char_string('\n'))));
        },
        Key::Tab => {
            *add_key = Some(InformType::KeyType(KeyType::Text(char_string('\t'))));
        },
        _ => {},
    }
}

/// Sets `add_key` to the shortcut that Ctrl with the character `s_msg`
/// asks for, if any.
fn set_ctrl_key(add_key: &mut Option<InformType>, s_msg: String, is_shift: bool)
    ensures
        opt_inform(*final(add_key)) == (match ctrl_key_type(uppercase_of(s_msg@), is_shift) {
            Some(k) => Some(InformView::Key(k)),
            None => opt_inform(*old(add_key)),
        }),
{
    let msg = to_uppercase(s_msg.as_str());
    if let Some(k) = ctrl_key_from_upper(&msg, is_shift) {
        *add_key = Some(InformType::KeyType(k));
    }
}

#[verifier::external_type_specification]
#[verifier::external_body]
pub struct ExClipboard(arboard::Clipboard);

#[verifier::external_type_specification]
#[verifier::external_body]
pub struct ExClipboardError(arboard::Error);

/// `arboard::Clipboard::new`: opens the system clipboard. Whether that
/// succeeds depends on the system; nothing is stated of it.
#[verifier::external_body]
fn clipboard_new() -> Result<arboard::Clipboard, arboard::Error> {
    arboard::Clipboard::new()
}

/// `arboard::Clipboard::get_text`: the text on the system clipboard. What
/// it holds depends on the system; nothing is stated of it.
#[verifier::external_body]
fn clipboard_get_text(clipboard: &mut arboard::Clipboard) -> Result<String, arboard::Error> {
    clipboard.get_text()
}

/// `arboard::Clipboard::set_text`: puts the text on the system clipboard.
/// Whether that succeeds depends on the system; nothing is stated of it.
#[verifier::external_body]
fn clipboard_set_text(clipboard: &mut arboard::Clipboard, text: String) -> Result<(), arboard::Error> {
    clipboard.set_text(text)
}

/// Opens the clipboard and reads its text.
fn read_clipboard() -> ClipboardOutcome {
    match clipboard_new() {
        Ok(mut clipboard) => {
            let text = match clipboard_get_text(&mut clipboard) {
                Ok(text) => Some(text),
                Err(_) => None,
            };
            ClipboardOutcome::Opened(text)
        },
        Err(_) => ClipboardOutcome::Closed,
    }
}

/// Opens the clipboard and puts `text` on it. It reports whether the
/// clipboard could be opened and, when it could, the text it was handed.
fn write_clipboard(text: &String) -> (r: ClipboardOutcome)
    ensures
        r is Closed || (r matches ClipboardOutcome::Opened(Some(t)) && t@ == text@),
{
    match clipboard_new() {
        Ok(mut clipboard) => {
            let sent = text.clone();
            let _ = clipboard_set_text(&mut clipboard, sent.clone());
            ClipboardOutcome::Opened(Some(sent))
        },
        Err(_) => ClipboardOutcome::Closed,
    }
}

/// The history entry of an edit made at `sel` that removed `before` and
/// inserted `after`.
pub open spec fn edit(sel: Select, before: Seq<char>, after: Seq<char>) -> HistoryItem {
    HistoryItem::Command(sel, before, after)
}

/// The selection from character `start` to character `end`, with the given
/// anchor.
pub open spec fn span(start: int, end: int, anchor: Option<usize>) -> Select {
    Select(start as usize, end as usize, anchor)
}

/// The text after one undo or redo step, and the selection it leaves (start,
/// end): taking back an edit puts back the text it removed, selected, in
/// place of the text it inserted; carrying it out again puts back the text
/// it inserted in place of the text it removed, with the cursor after it.
pub open spec fn act(x: UndoAction, t: Seq<char>) -> (Seq<char>, int, int) {
    let a = clamp(t, x.select.0 as int);
    let removed = if x.redo {
        x.before
    } else {
        x.after
    };
    let inserted = if x.redo {
        x.after
    } else {
        x.before
    };
    let u = t.take(a) + inserted + t.skip(clamp(t, a + removed.len()));
    if x.redo {
        (u, a + inserted.len(), a + inserted.len())
    } else {
        (u, a, a + inserted.len())
    }
}

/// The text and selection after carrying out the steps in order, from the
/// text `t` and the selection (`start`, `end`).
pub open spec fn run_actions(acts: Seq<UndoAction>, t: Seq<char>, start: int, end: int) -> (Seq<char>, int, int)
    decreases acts.len(),
{
    if acts.len() == 0 {
        (t, start, end)
    } else {
        act(acts.last(), run_actions(acts.drop_last(), t, start, end).0)
    }
}

/// The three parts after an undo or a redo that asks for the steps `acts`:
/// with no step, the text stays and the selection is dropped; otherwise the
/// steps are carried out on the whole text, and the parts are split at the
/// selection that the last step leaves.
pub open spec fn history_parts(acts: Seq<UndoAction>, f: Seq<char>, s: Seq<char>, b: Seq<char>) -> (Seq<char>, Seq<char>, Seq<char>) {
    if acts.len() == 0 {
        (f, Seq::empty(), b)
    } else {
        let r = run_actions(acts, f + s + b, 0, 0);
        (r.0.take(r.1), r.0.subrange(r.1, r.2), r.0.skip(r.2))
    }
}

/// The parts of a text field and its history after an editing command, for
/// the given clipboard outcome. Every command but Copy (with an open
/// clipboard), select-all, and an undo or redo that changes the text drops
/// the selection; typing, pasting and the deletions replace the text they
/// remove and record the edit: where it starts and ends in the text, the
/// text it removed and the text it inserted. Undo and redo carry out the
/// steps that the history hands back.
pub open spec fn text_step(
    key: KeyTypeView,
    f: Seq<char>,
    s: Seq<char>,
    b: Seq<char>,
    sel: Select,
    h: Seq<HistoryItem>,
    out: ClipboardOutcome,
) -> (Seq<char>, Seq<char>, Seq<char>, Seq<HistoryItem>) {
    let empty = Seq::<char>::empty();
    let at_sel = span(f.len() as int, (f.len() + s.len()) as int, sel.2);
    match key {
        KeyTypeView::Text(t) => (f + t, empty, b, h.push(edit(at_sel, s, t))),
        KeyTypeView::Space => (f + seq![' '], empty, b, h.push(edit(at_sel, s, seq![' ']))),
        KeyTypeView::BackSpace => if sel.0 == sel.1 && f.len() > 0 {
            (
                f.drop_last(),
                empty,
                b,
                h.push(edit(span(f.len() - 1, (f.len() + s.len()) as int, sel.2), seq![f.last()] + s, empty)),
            )
        } else {
            (f, empty, b, h.push(edit(at_sel, s, empty)))
        },
        KeyTypeView::CtrlBackSpace => {
            let p = front_ctrl_point(f + s) as int;
            ((f + s).take(p), empty, b, h.push(edit(span(p, (f.len() + s.len()) as int, sel.2), (f + s).skip(p), empty)))
        },
        KeyTypeView::Paste => match out {
            ClipboardOutcome::Opened(Some(t)) => (f + t@, empty, b, h.push(edit(at_sel, s, t@))),
            _ => (f, empty, b, h),
        },
        KeyTypeView::Copy => match out {
            ClipboardOutcome::Opened(_) => (f, s, b, h),
            ClipboardOutcome::Closed => (f, empty, b, h),
        },
        KeyTypeView::Cut => match out {
            ClipboardOutcome::Opened(_) => (f, empty, b, h.push(edit(at_sel, s, empty))),
            ClipboardOutcome::Closed => (f, empty, b, h),
        },
        KeyTypeView::AllSelect => (empty, f + s + b, empty, h),
        KeyTypeView::Undo => {
            let p = history_parts(undo_actions_of(h), f, s, b);
            (p.0, p.1, p.2, undo_effect(h))
        },
        KeyTypeView::Redo => {
            let p = history_parts(redo_actions_of(h), f, s, b);
            (p.0, p.1, p.2, redo_effect(h))
        },
    }
}

/// Carries out one undo or redo step on the text `v` (see `act`).
fn apply_action(redo: bool, change: &Change, v: &Vec<char>) -> (r: (Vec<char>, usize, usize))
    ensures
        ({
            let x = act(action_view((redo, *change)), v@);
            &&& r.0@ == x.0
            &&& r.1 == x.1
            &&& r.2 == x.2
        }),
        r.1 <= r.2 <= r.0@.len(),
{
    let len = v.len();
    let a = if change.select.0 < len {
        change.select.0
    } else {
        len
    };
    let before = chars_of(change.before.as_str());
    let after = chars_of(change.after.as_str());
    let removed = if redo {
        before.len()
    } else {
        after.len()
    };
    let inserted = if redo {
        after
    } else {
        before
    };
    let e = if removed > len - a {
        len
    } else {
        a + removed
    };
    let head = sub_chars(v, 0, a);
    let tail = sub_chars(v, e, len);
    let out = concat_chars(&concat_chars(&head, &inserted), &tail);
    proof {
        assert(head@ == v@.take(a as int));
        assert(tail@ == v@.skip(e as int));
    }
    let n = inserted.len();
    let total = out.len();
    assert(a + n <= total);
    if redo {
        (out, a + n, a + n)
    } else {
        (out, a, a + n)
    }
}

/// Carries out the steps that an undo or a redo handed back on the whole
/// text of the parts, and gives the new parts (see `history_parts`).
fn replay(actions: &Vec<(bool, Change)>, text_list: &[String; 3]) -> (r: [String; 3])
    requires
        actions@.len() > 0,
    ensures
        ({
            let p = history_parts(actions_view(actions@), text_list[0]@, text_list[1]@, text_list[2]@);
            &&& r[0]@ == p.0
            &&& r[1]@ == p.1
            &&& r[2]@ == p.2
        }),
{
    let ghost acts = actions_view(actions@);
    let ghost t0 = text_list[0]@ + text_list[1]@ + text_list[2]@;
    let joined = concat3(text_list);
    let mut v = chars_of(joined.as_str());
    let mut start: usize = 0;
    let mut end: usize = 0;
    let mut i: usize = 0;
    proof {
        assert(acts.take(0) == Seq::<UndoAction>::empty());
    }
    while i < actions.len()
        invariant
            i <= actions@.len(),
            acts == actions_view(actions@),
            acts.len() == actions@.len(),
            run_actions(acts.take(i as int), t0, 0, 0) == (v@, start as int, end as int),
            start <= end <= v@.len(),
        decreases actions@.len() - i,
    {
        let r = apply_action(actions[i].0, &actions[i].1, &v);
        proof {
            assert(acts.take(i + 1).drop_last() == acts.take(i as int));
            assert(acts.take(i + 1).last() == action_view(actions@[i as int]));
        }
        v = r.0;
        start = r.1;
        end = r.2;
        i += 1;
    }
    proof {
        assert(acts.take(i as int) == acts);
    }
    let front = sub_chars(&v, 0, start);
    let middle = sub_chars(&v, start, end);
    let back = sub_chars(&v, end, v.len());
    proof {
        assert(front@ == v@.take(start as int));
        assert(back@ == v@.skip(end as int));
    }
    [string_of(&front), string_of(&middle), string_of(&back)]
}

/// Applies an editing command to the parts of a text field, given what the
/// clipboard gave (used by Paste, Copy and Cut only), and records the edit
/// in the field's history. The field's text and selection record are left
/// for the caller to update from the parts. Where the history's source
/// shows the steps of an undo or a redo (`undo_actions_known`,
/// `redo_actions_known`), the parts are those that these steps give.
pub fn apply_text_key(key: &KeyType, text_list: &mut [String; 3], text_field: &mut TextField, clipboard: &ClipboardOutcome)
    ensures
        ({
            let st = text_step(key@, old(text_list)[0]@, old(text_list)[1]@, old(text_list)[2]@,
                old(text_field).select, history_of(old(text_field).command), *clipboard);
            &&& final(text_list)[0]@ == st.0
            &&& final(text_list)[1]@ == st.1
            &&& final(text_list)[2]@ == st.2
            &&& history_of(final(text_field).command) == st.3
        }),
        ({
            let h = history_of(old(text_field).command);
            let p = match key@ {
                KeyTypeView::Undo => undo_actions_known(h),
                KeyTypeView::Redo => redo_actions_known(h),
                _ => None,
            };
            p matches Some(a) ==> {
                let q = history_parts(a, old(text_list)[0]@, old(text_list)[1]@, old(text_list)[2]@);
                &&& final(text_list)[0]@ == q.0
                &&& final(text_list)[1]@ == q.1
                &&& final(text_list)[2]@ == q.2
            }
        }),
        final(text_field).text == old(text_field).text,
        final(text_field).select == old(text_field).select,
{
    let mut reset_select = true;
    let anchor = text_field.select.2;
    let start = text_list[0].size();
    let end = join2(text_list[0].as_str(), text_list[1].as_str()).size();
    match key {
        KeyType::Text(text) => {
            text_list[0] = join2(text_list[0].as_str(), text.as_str());
            let change = Change { select: Select(start, end, anchor), before: text_list[1].clone(), after: text.clone() };
            commands_push(&mut text_field.command, change);
        },
        KeyType::Space => {
            let space = char_string(' ');
            text_list[0] = join2(text_list[0].as_str(), space.as_str());
            let change = Change { select: Select(start, end, anchor), before: text_list[1].clone(), after: space };
            commands_push(&mut text_field.command, change);
        },
        KeyType::BackSpace => {
            let mut front = text_list[0].clone();
            let popped = if text_field.select.is_close() {
                pop_char(&mut front)
            } else {
                None
            };
            let change = match popped {
                Some(c) => {
                    text_list[0] = front;
                    let removed = join2(char_string(c).as_str(), text_list[1].as_str());
                    Change { select: Select(start - 1, end, anchor), before: removed, after: String::new() }
                },
                None => Change { select: Select(start, end, anchor), before: text_list[1].clone(), after: String::new() },
            };
            commands_push(&mut text_field.command, change);
        },
        KeyType::CtrlBackSpace => {
            proof {
                lemma_front_ctrl_point_bound(text_list[0]@ + text_list[1]@);
            }
            let list = get_front_ctrl(join2(text_list[0].as_str(), text_list[1].as_str()));
            text_list[0] = list[0].clone();
            let p = list[0].size();
            let change = Change { select: Select(p, end, anchor), before: list[1].clone(), after: String::new() };
            commands_push(&mut text_field.command, change);
        },
        KeyType::Paste => {
            if let ClipboardOutcome::Opened(Some(text)) = clipboard {
                text_list[0] = join2(text_list[0].as_str(), text.as_str());
                let change = Change { select: Select(start, end, anchor), before: text_list[1].clone(), after: text.clone() };
                commands_push(&mut text_field.command, change);
            }
        },
        KeyType::Copy => {
            if let ClipboardOutcome::Opened(_) = clipboard {
                reset_select = false;
            }
        },
        KeyType::Cut => {
            if let ClipboardOutcome::Opened(_) = clipboard {
                let change = Change { select: Select(start, end, anchor), before: text_list[1].clone(), after: String::new() };
                commands_push(&mut text_field.command, change);
            }
        },
        KeyType::AllSelect => {
            let all = join2(join2(text_list[0].as_str(), text_list[1].as_str()).as_str(), text_list[2].as_str());
            text_list[1] = all;
            text_list[0] = String::new();
            text_list[2] = String::new();
            reset_select = false;
        },
        KeyType::Undo => {
            let actions = commands_undo(&mut text_field.command);
            if actions.len() > 0 {
                *text_list = replay(&actions, text_list);
                reset_select = false;
            }
        },
        KeyType::Redo => {
            let actions = commands_redo(&mut text_field.command);
            if actions.len() > 0 {
                *text_list = replay(&actions, text_list);
                reset_select = false;
            }
        },
    }
    if reset_select {
        text_list[1] = String::new();
    }
}

/// Applies an editing command to the parts of a text field: Paste reads the
/// system clipboard, Copy and Cut hand the selection to it, and the edit is
/// recorded in the field's history. What the clipboard gives depends on the
/// system, so the result is that of `text_step` for some clipboard outcome;
/// for Copy and Cut that outcome is a closed clipboard or one that was
/// handed the selected text.
pub fn set_text_list(key: &KeyType, text_list: &mut [String; 3], text_field: &mut TextField)
    ensures
        exists|out: ClipboardOutcome|
            {
                let st = #[trigger] text_step(key@, old(text_list)[0]@, old(text_list)[1]@, old(text_list)[2]@,
                    old(text_field).select, history_of(old(text_field).command), out);
                &&& final(text_list)[0]@ == st.0
                &&& final(text_list)[1]@ == st.1
                &&& final(text_list)[2]@ == st.2
                &&& history_of(final(text_field).command) == st.3
                &&& sent_selection(key@, out, old(text_list)[1]@)
            },
        ({
            let h = history_of(old(text_field).command);
            let p = match key@ {
                KeyTypeView::Undo => undo_actions_known(h),
                KeyTypeView::Redo => redo_actions_known(h),
                _ => None,
            };
            p matches Some(a) ==> {
                let q = history_parts(a, old(text_list)[0]@, old(text_list)[1]@, old(text_list)[2]@);
                &&& final(text_list)[0]@ == q.0
                &&& final(text_list)[1]@ == q.1
                &&& final(text_list)[2]@ == q.2
            }
        }),
        final(text_field).text == old(text_field).text,
        final(text_field).select == old(text_field).select,
{
    let outcome = match key {
        KeyType::Paste => read_clipboard(),
        KeyType::Copy | KeyType::Cut => write_clipboard(&text_list[1]),
        _ => ClipboardOutcome::Closed,
    };
    apply_text_key(key, text_list, text_field, &outcome);
}

/// For Copy and Cut, the clipboard outcome is a closed clipboard or an open
/// one that was handed `selected`.
pub open spec fn sent_selection(key: KeyTypeView, out: ClipboardOutcome, selected: Seq<char>) -> bool {
    (key is Copy || key is Cut) ==> (out is Closed || (out matches ClipboardOutcome::Opened(Some(t)) && t@ == selected))
}

/// One undo or redo step, carried out on a text made of `p`, the text the
/// step removes, and `q`, puts the text it inserts between `p` and `q`.
proof fn lemma_single_step(x: UndoAction, f: Seq<char>, s: Seq<char>, b: Seq<char>, p: Seq<char>, m: Seq<char>, q: Seq<char>)
    requires
        f + s + b == p + m + q,
        x.select.0 == p.len(),
        m == (if x.redo {
            x.before
        } else {
            x.after
        }),
    ensures
        ({
            let ins = if x.redo {
                x.after
            } else {
                x.before
            };
            let r = history_parts(seq![x], f, s, b);
            &&& x.redo ==> r.0 == p + ins && r.1 == Seq::<char>::empty() && r.2 == q
            &&& !x.redo ==> r.0 == p && r.1 == ins && r.2 == q
        }),
{
    let t = p + m + q;
    let ins = if x.redo {
        x.after
    } else {
        x.before
    };
    assert(seq![x].drop_last() =~= Seq::<UndoAction>::empty());
    assert(seq![x].last() == x);
    assert(run_actions(Seq::<UndoAction>::empty(), t, 0, 0) == (t, 0int, 0int));
    assert(run_actions(seq![x], t, 0, 0) == act(x, t));
    let n: int = p.len() as int;
    let k: int = n + ins.len();
    assert(t.take(n) =~= p);
    assert(t.skip(n + m.len()) =~= q);
    let u = p + ins + q;
    assert(act(x, t).0 =~= u);
    assert(u.take(n) =~= p);
    assert(u.subrange(n, k) =~= ins);
    assert(u.skip(k) =~= q);
    assert(u.take(k) =~= p + ins);
    assert(u.subrange(k, k) =~= Seq::<char>::empty());
}

/// Undo takes back an edit and redo carries it out again: after an editing
/// command recorded an edit (typing, a space, a deletion, a paste or a cut),
/// the history hands back the one step that takes it back, which puts the
/// whole text back as it was before the command; redo then hands back the
/// step that carries the edit out again, which gives back the parts as they
/// were after the command.
pub proof fn law_undo_restores_edit(
    key: KeyTypeView,
    f: Seq<char>,
    s: Seq<char>,
    b: Seq<char>,
    sel: Select,
    h: Seq<HistoryItem>,
    out: ClipboardOutcome,
)
    requires
        !(key is Undo),
        !(key is Redo),
        text_step(key, f, s, b, sel, h, out).3.len() > h.len(),
        (f + s + b).len() <= usize::MAX,
    ensures
        ({
            let st = text_step(key, f, s, b, sel, h, out);
            undo_actions_known(st.3) matches Some(a) && a.len() == 1 && {
                let u = history_parts(a, st.0, st.1, st.2);
                &&& u.0 + u.1 + u.2 == f + s + b
                &&& redo_actions_known(undo_effect(st.3)) matches Some(r) && {
                    let v = history_parts(r, u.0, u.1, u.2);
                    &&& v.0 == st.0
                    &&& v.1 == st.1
                    &&& v.2 == st.2
                }
            }
        }),
{
    let st = text_step(key, f, s, b, sel, h, out);
    let e = st.3.last();
    let h2 = undo_effect(st.3);
    assert(h2.last() == HistoryItem::Undo(0));
    assert(h2[h2.len() - 2] == e);
    let empty = Seq::<char>::empty();
    let whole = f + s + b;
    match e {
        HistoryItem::Command(esel, before, after) => {
            let x = UndoAction { redo: false, select: esel, before, after };
            let y = UndoAction { redo: true, select: esel, before, after };
            assert(undo_actions_known(st.3) == Some(seq![x]));
            assert(redo_actions_known(h2) == Some(seq![y]));
            // The text before the edit, split as the step that takes it
            // back sees it: `p`, the removed text `before`, and `q`.
            let (p, q) = match key {
                KeyTypeView::BackSpace => if sel.0 == sel.1 && f.len() > 0 {
                    (f.drop_last(), b)
                } else {
                    (f, b)
                },
                KeyTypeView::CtrlBackSpace => ((f + s).take(front_ctrl_point(f + s) as int), b),
                _ => (f, b),
            };
            lemma_front_ctrl_point_bound(f + s);
            assert(p + before + q =~= whole);
            assert(st.0 + st.1 + st.2 =~= p + after + q);
            lemma_single_step(x, st.0, st.1, st.2, p, after, q);
            let u = history_parts(seq![x], st.0, st.1, st.2);
            assert(u.0 + u.1 + u.2 =~= whole);
            lemma_single_step(y, u.0, u.1, u.2, p, before, q);
        },
        HistoryItem::Undo(_) => {},
    }
}

} // verus!
