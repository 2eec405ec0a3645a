//! Turning keyboard and IME events into commands, and applying a frame's
//! commands to a text field.
use vstd::prelude::*;

use super::select_input::{
    get_select_informtype, get_select_shift_informtype, select_step, select_step_allowed,
    select_step_ok, select_type_of, set_select_text_list, shift_select_type_of, Direction,
    SelectType,
};
use super::text_input::{
    get_text_inform_type, set_text_list, span, text_inform_of, text_step, ClipboardOutcome, KeyType,
    KeyTypeView,
};
use super::Key;
use crate::selection::{cursor_text, shown, with_cursor};
use crate::text_field::{
    history_of, HistoryItem, Select, TextField, TextFieldInfo, TextFieldInput, TextFieldPosition,
};
use crate::text_field_style::change_passwd;
use crate::tool::{clamp, concat3, join2, pop_char, split_text, ToolString};

verus! {

/// A command for a text field: an editing command or an arrow key.
#[derive(PartialEq, Eq, Debug)]
pub enum InformType {
    KeyType(KeyType),
    SelectType(SelectType),
}

/// A command, with its text as characters.
pub enum InformView {
    Key(KeyTypeView),
    Select(SelectType),
}

impl View for InformType {
    type V = InformView;

    open spec fn view(&self) -> InformView {
        match self {
            InformType::KeyType(k) => InformView::Key(k@),
            InformType::SelectType(s) => InformView::Select(*s),
        }
    }
}

/// The view of an optional command.
pub open spec fn opt_inform(o: Option<InformType>) -> Option<InformView> {
    match o {
        Some(i) => Some(i@),
        None => None,
    }
}

/// One input of a frame: `is_finish` is false for an unfinished IME
/// composition, which then carries in `is_ime` how many characters of the
/// previous composition it replaces.
#[derive(PartialEq, Eq, Debug)]
pub struct KeyInform {
    pub is_ime: Option<usize>,
    pub is_finish: bool,
    pub key: InformType,
}

/// One input, with its text as characters.
pub struct KeyInformView {
    pub is_ime: Option<usize>,
    pub is_finish: bool,
    pub key: InformView,
}

impl View for KeyInform {
    type V = KeyInformView;

    open spec fn view(&self) -> KeyInformView {
        KeyInformView { is_ime: self.is_ime, is_finish: self.is_finish, key: self.key@ }
    }
}

/// An IME event: a committed text, a composition in progress (with the
/// cursor inside it, if any), or another event.
pub enum ImeEvent {
    Commit(String),
    Preedit(String, Option<(usize, usize)>),
    Other,
}

/// A keyboard event: whether the key went down, and its logical key.
pub struct KeyboardEvent {
    pub pressed: bool,
    pub logical_key: Key,
}

/// The optional string as characters.
pub open spec fn opt_chars(o: Option<String>) -> Option<Seq<char>> {
    match o {
        Some(s) => Some(s@),
        None => None,
    }
}

/// The input an IME event gives, and the composition remembered after it.
/// A commit gives its text as finished input. A composition gives its text
/// as unfinished input that replaces as many characters as the remembered
/// composition had (one when none is remembered); it is remembered when its
/// cursor is not at the start. An empty composition with a cursor gives
/// nothing.
pub open spec fn ime_inform(e: ImeEvent, last: Option<Seq<char>>) -> (Option<KeyInformView>, Option<Seq<char>>) {
    match e {
        ImeEvent::Commit(v) => (
            Some(KeyInformView { is_ime: None, is_finish: true, key: InformView::Key(KeyTypeView::Text(v@)) }),
            last,
        ),
        ImeEvent::Preedit(v, cursor) => if v@.len() == 0 && cursor is Some {
            (None, last)
        } else {
            let num: usize = match last {
                Some(l) => l.len() as usize,
                None => 1,
            };
            let new_last = match cursor {
                Some(c) => if c.0 + c.1 == 0 {
                    None
                } else {
                    Some(v@)
                },
                None => None,
            };
            (
                Some(KeyInformView { is_ime: Some(num), is_finish: false, key: InformView::Key(KeyTypeView::Text(v@)) }),
                new_last,
            )
        },
        ImeEvent::Other => (None, last),
    }
}

/// The inputs a sequence of IME events gives, and the composition
/// remembered after them.
pub open spec fn ime_fold(es: Seq<ImeEvent>, last0: Option<Seq<char>>) -> (Seq<KeyInformView>, Option<Seq<char>>)
    decreases es.len(),
{
    if es.len() == 0 {
        (Seq::empty(), last0)
    } else {
        let prev = ime_fold(es.drop_last(), last0);
        let step = ime_inform(es.last(), prev.1);
        match step.0 {
            Some(k) => (prev.0.push(k), step.1),
            None => (prev.0, step.1),
        }
    }
}

/// The command a key press gives: an editing command, or an arrow key's
/// movement (a selection change with Shift). Key releases give none.
pub open spec fn key_inform(e: KeyboardEvent, is_ctrl: bool, is_shift: bool) -> Option<KeyInformView> {
    if !e.pressed {
        None
    } else {
        let text = text_inform_of(e.logical_key, is_ctrl, is_shift, None);
        let arrow = if is_shift {
            shift_select_type_of(e.logical_key, is_ctrl)
        } else {
            select_type_of(e.logical_key, is_ctrl)
        };
        let key = match arrow {
            Some(t) => Some(InformView::Select(t)),
            None => text,
        };
        match key {
            Some(k) => Some(KeyInformView { is_ime: None, is_finish: true, key: k }),
            None => None,
        }
    }
}

/// The commands a sequence of keyboard events gives.
pub open spec fn key_fold(es: Seq<KeyboardEvent>, is_ctrl: bool, is_shift: bool) -> Seq<KeyInformView>
    decreases es.len(),
{
    if es.len() == 0 {
        Seq::empty()
    } else {
        let prev = key_fold(es.drop_last(), is_ctrl, is_shift);
        match key_inform(es.last(), is_ctrl, is_shift) {
            Some(k) => prev.push(k),
            None => prev,
        }
    }
}

/// The inputs of a frame, as views.
pub open spec fn informs_view(v: Seq<KeyInform>) -> Seq<KeyInformView> {
    v.map_values(|k: KeyInform| k@)
}

/// Collects a frame's input: first the IME events, then the keyboard
/// events, each turned into a command. `last_emoji` remembers the IME
/// composition in progress across frames.
pub fn get_keys(
    last_emoji: &mut Option<String>,
    evr_ime: &Vec<ImeEvent>,
    evr_kbd: &Vec<KeyboardEvent>,
    is_pressed_shift: bool,
    is_pressed_ctrl: bool,
) -> (list: Vec<KeyInform>)
    requires
        forall|i: int|
            0 <= i < evr_ime@.len() ==> (#[trigger] evr_ime@[i] matches ImeEvent::Preedit(_, Some(c))
                ==> c.0 + c.1 <= usize::MAX),
    ensures
        ({
            let ime = ime_fold(evr_ime@, opt_chars(*old(last_emoji)));
            &&& informs_view(list@) == ime.0 + key_fold(evr_kbd@, is_pressed_ctrl, is_pressed_shift)
            &&& opt_chars(*final(last_emoji)) == ime.1
        }),
{
    let mut list: Vec<KeyInform> = Vec::new();
    let ghost last0 = opt_chars(*last_emoji);
    let mut i: usize = 0;
    while i < evr_ime.len()
        invariant
            i <= evr_ime@.len(),
            forall|j: int|
                0 <= j < evr_ime@.len() ==> (#[trigger] evr_ime@[j] matches ImeEvent::Preedit(_, Some(c))
                    ==> c.0 + c.1 <= usize::MAX),
            last0 == opt_chars(*old(last_emoji)),
            informs_view(list@) == ime_fold(evr_ime@.take(i as int), last0).0,
            opt_chars(*last_emoji) == ime_fold(evr_ime@.take(i as int), last0).1,
        decreases evr_ime@.len() - i,
    {
        let ghost before = list@;
        proof {
            assert(evr_ime@.take(i + 1).drop_last() == evr_ime@.take(i as int));
            assert(evr_ime@.take(i + 1).last() == evr_ime@[i as int]);
        }
        match &evr_ime[i] {
            ImeEvent::Commit(value) => {
                list.push(
                    KeyInform {
                        is_ime: None,
                        is_finish: true,
                        key: InformType::KeyType(KeyType::Text(value.clone())),
                    },
                );
                proof {
                    assert(informs_view(list@) =~= informs_view(before).push(list@.last()@));
                }
            },
            ImeEvent::Preedit(value, cursor) => {
                if value.as_str().is_empty() && cursor.is_some() {
                } else {
                    let num = if let Some(last) = last_emoji {
                        last.size()
                    } else {
                        1
                    };
                    let new_last = if let Some((a, b)) = cursor {
                        assert(evr_ime@[i as int] matches ImeEvent::Preedit(_, Some(c)));
                        if *a + *b == 0 {
                            None
                        } else {
                            Some(value.clone())
                        }
                    } else {
                        None
                    };
                    *last_emoji = new_last;
                    list.push(
                        KeyInform {
                            is_ime: Some(num),
                            is_finish: false,
                            key: InformType::KeyType(KeyType::Text(value.clone())),
                        },
                    );
                    proof {
                        assert(informs_view(list@) =~= informs_view(before).push(list@.last()@));
                    }
                }
            },
            ImeEvent::Other => {},
        }
        i += 1;
    }
    proof {
        assert(evr_ime@.take(evr_ime@.len() as int) == evr_ime@);
    }
    let ghost ime_part = informs_view(list@);
    let mut j: usize = 0;
    while j < evr_kbd.len()
        invariant
            j <= evr_kbd@.len(),
            informs_view(list@) == ime_part + key_fold(evr_kbd@.take(j as int), is_pressed_ctrl, is_pressed_shift),
        decreases evr_kbd@.len() - j,
    {
        let ghost before = list@;
        proof {
            assert(evr_kbd@.take(j + 1).drop_last() == evr_kbd@.take(j as int));
            assert(evr_kbd@.take(j + 1).last() == evr_kbd@[j as int]);
        }
        let key = &evr_kbd[j];
        if key.pressed {
            let mut add_key: Option<InformType> = None;
            get_text_inform_type(key.logical_key.clone(), &mut add_key, is_pressed_ctrl, is_pressed_shift);
            if is_pressed_shift {
                get_select_shift_informtype(key.logical_key.clone(), &mut add_key, is_pressed_ctrl);
            } else {
                get_select_informtype(key.logical_key.clone(), &mut add_key, is_pressed_ctrl);
            }
            if let Some(k) = add_key {
                list.push(KeyInform { is_ime: None, is_finish: true, key: k });
                proof {
                    assert(informs_view(list@) =~= informs_view(before).push(list@.last()@));
                }
            }
        }
        j += 1;
    }
    proof {
        assert(evr_kbd@.take(evr_kbd@.len() as int) == evr_kbd@);
    }
    list
}

/// The editing state of a field while a frame's input is applied: the three
/// parts, the selection record, the history and whether the last input was
/// an unfinished IME composition.
pub struct EditState {
    pub front: Seq<char>,
    pub sel_text: Seq<char>,
    pub back: Seq<char>,
    pub select: Select,
    pub history: Seq<HistoryItem>,
    pub last_ime: bool,
}

/// `f` without its last `n` characters (empty when it has no more).
pub open spec fn drop_chars(f: Seq<char>, n: int) -> Seq<char> {
    if n >= f.len() {
        Seq::empty()
    } else {
        f.take(f.len() - n)
    }
}

/// The state after one input, and whether it stopped the frame's input;
/// `None` when an arrow key cannot be handled (see `select_step_ok`). A
/// finished input is an editing command or an arrow key, and ends any IME
/// composition. An unfinished IME composition replaces the characters of
/// the previous composition (none when the last input was not one) and the
/// selection.
pub open spec fn field_step(st: EditState, k: KeyInformView, out: ClipboardOutcome) -> Option<(EditState, bool)> {
    if k.is_finish {
        match k.key {
            InformView::Key(kt) => {
                let r = text_step(kt, st.front, st.sel_text, st.back, st.select, st.history, out);
                Some(
                    (
                        EditState {
                            front: r.0,
                            sel_text: r.1,
                            back: r.2,
                            select: st.select,
                            history: r.3,
                            last_ime: false,
                        },
                        false,
                    ),
                )
            },
            InformView::Select(sk) => if !select_step_ok(sk, st.front, st.sel_text, st.back, st.select) {
                None
            } else {
                let r = select_step(sk, st.front, st.sel_text, st.back, st.select);
                Some(
                    (
                        EditState {
                            front: r.0,
                            sel_text: r.1,
                            back: r.2,
                            select: r.3,
                            history: st.history,
                            last_ime: if r.4 {
                                st.last_ime
                            } else {
                                false
                            },
                        },
                        r.4,
                    ),
                )
            },
        }
    } else {
        match k.is_ime {
            Some(num) => {
                let n = if st.last_ime {
                    num as int
                } else {
                    0
                };
                match k.key {
                    InformView::Key(KeyTypeView::Text(t)) => Some(
                        (
                            EditState {
                                front: drop_chars(st.front, n) + t,
                                sel_text: Seq::empty(),
                                last_ime: true,
                                ..st
                            },
                            false,
                        ),
                    ),
                    _ => Some((EditState { last_ime: true, ..st }, false)),
                }
            },
            None => Some((st, false)),
        }
    }
}

/// The state after a frame's inputs, for the given clipboard outcomes (one
/// per input, used by Paste, Copy and Cut), with whether an input stopped
/// the rest; `None` when an input cannot be handled.
pub open spec fn run_fold(init: EditState, keys: Seq<KeyInformView>, outs: Seq<ClipboardOutcome>) -> Option<(EditState, bool)>
    decreases keys.len(),
{
    if keys.len() == 0 {
        Some((init, false))
    } else {
        match run_fold(init, keys.drop_last(), outs.drop_last()) {
            None => None,
            Some(p) => if p.1 {
                Some(p)
            } else {
                field_step(p.0, keys.last(), outs.last())
            },
        }
    }
}

/// The editing state a field starts a frame with: its text split at its
/// selection.
pub open spec fn init_state(text_field: TextField, input: TextFieldInput) -> EditState {
    let t = text_field.text@;
    let a = clamp(t, text_field.select.0 as int);
    let b = clamp(t, text_field.select.1 as int);
    EditState {
        front: t.take(a),
        sel_text: t.subrange(a, b),
        back: t.skip(b),
        select: text_field.select,
        history: history_of(text_field.command),
        last_ime: input.is_last_text_ime,
    }
}

/// The field's text and selection after a frame, and whether the text was
/// cut to the maximal length: the parts put together, cut to `max_length`
/// characters if longer; the selection covers the middle part (as far as it
/// is left after the cut) and keeps its anchor only while it is not empty.
pub open spec fn finish(st: EditState, max_length: Option<usize>) -> (Seq<char>, Select, bool) {
    let change = st.front + st.sel_text + st.back;
    let start = st.front.len() as int;
    let n = st.sel_text.len() as int;
    let last_select = if n == 0 {
        None
    } else {
        st.select.2
    };
    match max_length {
        Some(num) => if num < change.len() {
            let s2 = if num < start {
                num as int
            } else {
                start
            };
            let e2 = if num < s2 + n {
                num as int
            } else {
                s2 + n
            };
            (change.take(num as int), Select(s2 as usize, e2 as usize, last_select), true)
        } else {
            (change, Select(start as usize, (start + n) as usize, last_select), false)
        },
        None => (change, Select(start as usize, (start + n) as usize, last_select), false),
    }
}

/// The field and its input state hold the outcome of a frame that ended in
/// state `st`.
pub open spec fn finished_as(
    text_field: TextField,
    input: TextFieldInput,
    st: EditState,
    max_length: Option<usize>,
) -> bool {
    let fin = finish(st, max_length);
    &&& text_field.text@ == fin.0
    &&& text_field.select == fin.1
    &&& history_of(text_field.command) == st.history
    &&& input.is_last_text_ime == (if fin.2 {
        false
    } else {
        st.last_ime
    })
}

proof fn lemma_run_fold_settled(init: EditState, keys: Seq<KeyInformView>, outs: Seq<ClipboardOutcome>, i: int)
    requires
        0 <= i <= keys.len(),
        outs.len() == keys.len(),
        run_fold(init, keys.take(i), outs.take(i)) matches Some(p) ==> p.1,
    ensures
        run_fold(init, keys, outs) == run_fold(init, keys.take(i), outs.take(i)),
    decreases keys.len(),
{
    if keys.len() == i {
        assert(keys.take(i) == keys);
        assert(outs.take(i) == outs);
    } else {
        let k2 = keys.drop_last();
        let o2 = outs.drop_last();
        assert(k2.take(i) == keys.take(i));
        assert(o2.take(i) == outs.take(i));
        lemma_run_fold_settled(init, k2, o2, i);
    }
}

/// Removes up to `num` characters from the end of `s`.
fn pop_chars(s: &mut String, num: usize)
    ensures
        final(s)@ == drop_chars(old(s)@, num as int),
{
    let mut k: usize = 0;
    while k < num
        invariant
            k <= num,
            s@ == drop_chars(old(s)@, k as int),
        decreases num - k,
    {
        let ghost before = s@;
        let _ = pop_char(s);
        proof {
            if before.len() > 0 {
                assert(before.drop_last() =~= drop_chars(old(s)@, k + 1));
            } else {
                assert(drop_chars(old(s)@, k + 1) =~= before);
            }
        }
        k += 1;
    }
}

/// Applies a frame's inputs to a text field, then puts the parts back
/// together, cut to the maximal length, and sets the selection. Returns
/// false, with the field left partly changed, exactly where the inputs
/// cannot be handled: a selection that ends before it starts, or an arrow
/// key that cannot be handled (see `select_step_ok`), for the clipboard
/// outcomes met.
pub fn try_set_text_field(
    key_list: &Vec<KeyInform>,
    text_field: &mut TextField,
    input: &mut TextFieldInput,
    field_info: &TextFieldInfo,
) -> (r: bool)
    ensures
        final(input).last_change_time == old(input).last_change_time,
        r ==> old(text_field).select.0 <= old(text_field).select.1 && exists|outs: Seq<ClipboardOutcome>|
            outs.len() == key_list@.len() && (#[trigger] run_fold(
                init_state(*old(text_field), *old(input)),
                informs_view(key_list@),
                outs,
            ) matches Some(p) && finished_as(*final(text_field), *final(input), p.0, field_info.max_length)),
        !r ==> old(text_field).select.0 > old(text_field).select.1 || exists|outs: Seq<ClipboardOutcome>|
            outs.len() == key_list@.len() && #[trigger] run_fold(
                init_state(*old(text_field), *old(input)),
                informs_view(key_list@),
                outs,
            ) is None,
{
    if text_field.select.0 > text_field.select.1 {
        return false;
    }
    let ghost init = init_state(*text_field, *input);
    let ghost kv = informs_view(key_list@);
    let mut text_list = split_text(text_field.text.clone(), text_field.select);
    let ghost mut outs: Seq<ClipboardOutcome> = Seq::empty();
    let n = key_list.len();
    let mut i: usize = 0;
    let mut stop = false;
    proof {
        assert(kv.take(0) == Seq::<KeyInformView>::empty());
    }
    while i < n && !stop
        invariant
            n == key_list@.len(),
            kv == informs_view(key_list@),
            init == init_state(*old(text_field), *old(input)),
            kv.len() == n,
            i <= n,
            outs.len() == i,
            input.last_change_time == old(input).last_change_time,
            text_field.text == old(text_field).text,
            run_fold(init, kv.take(i as int), outs) == Some(
                (
                    EditState {
                        front: text_list[0]@,
                        sel_text: text_list[1]@,
                        back: text_list[2]@,
                        select: text_field.select,
                        history: history_of(text_field.command),
                        last_ime: input.is_last_text_ime,
                    },
                    stop,
                ),
            ),
        decreases n - i,
    {
        let ghost st = EditState {
            front: text_list[0]@,
            sel_text: text_list[1]@,
            back: text_list[2]@,
            select: text_field.select,
            history: history_of(text_field.command),
            last_ime: input.is_last_text_ime,
        };
        let key_inform = &key_list[i];
        proof {
            assert(kv.take(i + 1).drop_last() == kv.take(i as int));
            assert(kv.take(i + 1).last() == key_inform@);
        }
        let ghost mut out = ClipboardOutcome::Closed;
        if key_inform.is_finish {
            match &key_inform.key {
                InformType::KeyType(key) => {
                    set_text_list(key, &mut text_list, text_field);
                    proof {
                        out = choose|o: ClipboardOutcome|
                            {
                                let r = #[trigger] text_step(key@, st.front, st.sel_text, st.back, st.select, st.history, o);
                                &&& text_list[0]@ == r.0
                                &&& text_list[1]@ == r.1
                                &&& text_list[2]@ == r.2
                                &&& history_of(text_field.command) == r.3
                            };
                    }
                    input.is_last_text_ime = false;
                },
                InformType::SelectType(key) => {
                    if !select_step_allowed(key, &mut text_list, text_field.select) {
                        proof {
                            let outs2 = outs.push(out);
                            assert(outs2.drop_last() == outs);
                            assert(run_fold(init, kv.take(i + 1), outs2) is None);
                            let full = outs2 + Seq::new((n - i - 1) as nat, |j: int| ClipboardOutcome::Closed);
                            assert(full.take(i + 1) == outs2);
                            lemma_run_fold_settled(init, kv, full, i + 1);
                            assert(run_fold(init, kv, full) is None);
                            assert(full.len() == key_list@.len());
                        }
                        return false;
                    }
                    if set_select_text_list(key, &mut text_list, text_field) {
                        stop = true;
                    } else {
                        input.is_last_text_ime = false;
                    }
                },
            }
        } else {
            if let Some(num0) = key_inform.is_ime {
                let num = if !input.is_last_text_ime {
                    0
                } else {
                    num0
                };
                if let InformType::KeyType(KeyType::Text(text)) = &key_inform.key {
                    let mut front = text_list[0].clone();
                    pop_chars(&mut front, num);
                    text_list[0] = join2(front.as_str(), text.as_str());
                    text_list[1] = String::new();
                }
                input.is_last_text_ime = true;
            }
        }
        proof {
            let outs2 = outs.push(out);
            assert(outs2.drop_last() == outs);
            outs = outs2;
        }
        i += 1;
    }
    proof {
        let full = outs + Seq::new((n - i) as nat, |j: int| ClipboardOutcome::Closed);
        assert(full.take(i as int) == outs);
        if i == n {
            assert(kv.take(i as int) == kv);
            assert(full =~= outs);
        } else {
            lemma_run_fold_settled(init, kv, full, i as int);
        }
        outs = full;
    }
    let change_text0 = concat3(&text_list);
    let total = change_text0.size();
    let mut select_start_num = text_list[0].size();
    let mut select_num = text_list[1].size();
    let last_select = if select_num == 0 {
        None
    } else {
        text_field.select.2
    };
    let mut change_text = change_text0;
    if let Some(num) = field_info.max_length {
        if num < total {
            change_text = change_text.slice(num);
            input.is_last_text_ime = false;
            select_start_num = if num < select_start_num {
                num
            } else {
                select_start_num
            };
            let end = if num < select_start_num + select_num {
                num
            } else {
                select_start_num + select_num
            };
            select_num = end - select_start_num;
        }
    }
    text_field.text = change_text;
    text_field.select = Select(select_start_num, select_start_num + select_num, last_select);
    true
}

/// Applies a frame's inputs to a text field (see `try_set_text_field`),
/// on inputs that can be handled whatever the clipboard gives.
pub fn set_text_field(
    key_list: &Vec<KeyInform>,
    text_field: &mut TextField,
    input: &mut TextFieldInput,
    field_info: &TextFieldInfo,
)
    requires
        old(text_field).select.0 <= old(text_field).select.1,
        forall|outs: Seq<ClipboardOutcome>|
            outs.len() == key_list@.len() ==> #[trigger] run_fold(
                init_state(*old(text_field), *old(input)),
                informs_view(key_list@),
                outs,
            ) is Some,
    ensures
        final(input).last_change_time == old(input).last_change_time,
        exists|outs: Seq<ClipboardOutcome>|
            outs.len() == key_list@.len() && (#[trigger] run_fold(
                init_state(*old(text_field), *old(input)),
                informs_view(key_list@),
                outs,
            ) matches Some(p) && finished_as(*final(text_field), *final(input), p.0, field_info.max_length)),
{
    let _ = try_set_text_field(key_list, text_field, input, field_info);
}

/// After a frame the selection lies within the text, and the text is no
/// longer than the maximal length, if one is set.
pub proof fn law_frame_keeps_selection_in_text(st: EditState, max_length: Option<usize>)
    requires
        (st.front + st.sel_text + st.back).len() <= usize::MAX,
    ensures
        ({
            let fin = finish(st, max_length);
            &&& (fin.1).0 <= (fin.1).1 <= fin.0.len()
            &&& (max_length matches Some(m) ==> fin.0.len() <= m)
        }),
{
}

/// Whether the frame's input holds Enter (a finished line break).
pub fn is_enter_pressed(key_list: &Vec<KeyInform>) -> (r: bool)
    ensures
        r == exists|i: int|
            0 <= i < key_list@.len() && {
                let k = #[trigger] key_list@[i]@;
                &&& k.is_ime is None
                &&& k.is_finish
                &&& k.key == InformView::Key(KeyTypeView::Text(seq!['\n']))
            },
{
    let mut i: usize = 0;
    while i < key_list.len()
        invariant
            i <= key_list@.len(),
            forall|j: int|
                0 <= j < i ==> !{
                    let k = #[trigger] key_list@[j]@;
                    &&& k.is_ime is None
                    &&& k.is_finish
                    &&& k.key == InformView::Key(KeyTypeView::Text(seq!['\n']))
                },
        decreases key_list@.len() - i,
    {
        let k = &key_list[i];
        if k.is_ime.is_none() && k.is_finish {
            if let InformType::KeyType(KeyType::Text(t)) = &k.key {
                let s = t.as_str();
                if s.unicode_len() == 1 && s.get_char(0) == '\n' {
                    assert(t@ =~= seq!['\n']);
                    assert(key_list@[i as int]@.key == InformView::Key(KeyTypeView::Text(seq!['\n'])));
                    return true;
                }
                assert(t@ != seq!['\n']);
            }
        }
        i += 1;
    }
    false
}

/// What a displayed part of a field shows for the given parts of its text,
/// and the part's new position record: the text before and after the
/// selection as shown (masked in a password field); the selection with the
/// cursor drawn, remembering the selected text.
pub fn field_span(text_list: &[String; 3], password_style: bool, position: &TextFieldPosition) -> (r: (
    String,
    TextFieldPosition,
))
    ensures
        match position {
            TextFieldPosition::Front => r.0@ == shown(text_list[0]@, password_style) && r.1
                == TextFieldPosition::Front,
            TextFieldPosition::Select(_) => r.0@ == with_cursor(text_list[1]@, password_style) && (
            r.1 matches TextFieldPosition::Select(t) && t@ == text_list[1]@),
            TextFieldPosition::Back => r.0@ == shown(text_list[2]@, password_style) && r.1
                == TextFieldPosition::Back,
        },
{
    match position {
        TextFieldPosition::Front => {
            let span = if password_style {
                change_passwd(text_list[0].clone())
            } else {
                text_list[0].clone()
            };
            (span, TextFieldPosition::Front)
        },
        TextFieldPosition::Select(_) => {
            (cursor_text(&text_list[1], password_style), TextFieldPosition::Select(text_list[1].clone()))
        },
        TextFieldPosition::Back => {
            let span = if password_style {
                change_passwd(text_list[2].clone())
            } else {
                text_list[2].clone()
            };
            (span, TextFieldPosition::Back)
        },
    }
}

/// Handles a frame's input for one field: a field without the focus is
/// left alone; otherwise, when there is input, it is applied. Returns
/// whether the text was edited and whether Enter was pressed, or `None`,
/// with the field left partly changed, where the input cannot be handled
/// (see `try_set_text_field`).
pub fn update_input_field(
    key_list: &Vec<KeyInform>,
    text_field: &mut TextField,
    input: &mut TextFieldInput,
    field_info: &TextFieldInfo,
) -> (r: Option<(bool, bool)>)
    ensures
        !field_info.focus || key_list@.len() == 0 ==> r == Some((false, false)) && *final(text_field)
            == *old(text_field) && *final(input) == *old(input),
        field_info.focus && key_list@.len() > 0 && r is Some ==> old(text_field).select.0
            <= old(text_field).select.1 && exists|outs: Seq<ClipboardOutcome>|
            outs.len() == key_list@.len() && (#[trigger] run_fold(
                init_state(*old(text_field), *old(input)),
                informs_view(key_list@),
                outs,
            ) matches Some(p) && finished_as(*final(text_field), *final(input), p.0, field_info.max_length)),
        field_info.focus && key_list@.len() > 0 && r is None ==> old(text_field).select.0
            > old(text_field).select.1 || exists|outs: Seq<ClipboardOutcome>|
            outs.len() == key_list@.len() && #[trigger] run_fold(
                init_state(*old(text_field), *old(input)),
                informs_view(key_list@),
                outs,
            ) is None,
        field_info.focus && key_list@.len() > 0 && r is Some ==> (r->0).0 && (r->0).1 == exists|i: int|
            0 <= i < key_list@.len() && {
                let k = #[trigger] key_list@[i]@;
                &&& k.is_ime is None
                &&& k.is_finish
                &&& k.key == InformView::Key(KeyTypeView::Text(seq!['\n']))
            },
{
    if !field_info.focus || key_list.len() == 0 {
        return Some((false, false));
    }
    if !try_set_text_field(key_list, text_field, input, field_info) {
        return None;
    }
    let is_enter = is_enter_pressed(key_list);
    Some((true, is_enter))
}

/// A finished input that is the editing command `key`.
pub open spec fn command_input(key: KeyTypeView) -> KeyInformView {
    KeyInformView { is_ime: None, is_finish: true, key: InformView::Key(key) }
}

/// Typing text at a cursor inserts it there: the text becomes the text
/// before the cursor, the typed text, and the text after it, and the cursor
/// ends up just after the typed text. The edit is recorded.
pub proof fn law_typing_inserts_at_cursor(st: EditState, t: Seq<char>, out: ClipboardOutcome)
    requires
        st.sel_text.len() == 0,
        (st.front + t + st.back).len() <= usize::MAX,
    ensures
        ({
            let r = field_step(st, command_input(KeyTypeView::Text(t)), out);
            &&& r matches Some(p) && !p.1
            &&& finish((r->0).0, None).0 == st.front + t + st.back
            &&& finish((r->0).0, None).1 == Select((st.front.len() + t.len()) as usize, (st.front.len() + t.len()) as usize, None)
            &&& (r->0).0.history == st.history.push(
                HistoryItem::Command(span(st.front.len() as int, st.front.len() as int, st.select.2), st.sel_text, t),
            )
        }),
{
    let r = field_step(st, command_input(KeyTypeView::Text(t)), out);
    assert((r->0).0.front == st.front + t);
    assert(st.front + t + Seq::<char>::empty() + st.back =~= st.front + t + st.back);
}

/// Backspace at a cursor deletes the character before it, and the cursor
/// moves back by one.
pub proof fn law_backspace_deletes_before_cursor(st: EditState, out: ClipboardOutcome)
    requires
        st.select.0 == st.select.1,
        st.sel_text.len() == 0,
        st.front.len() > 0,
        (st.front + st.back).len() <= usize::MAX,
    ensures
        ({
            let r = field_step(st, command_input(KeyTypeView::BackSpace), out);
            &&& r matches Some(p) && !p.1
            &&& finish((r->0).0, None).0 == st.front.drop_last() + st.back
            &&& finish((r->0).0, None).1 == Select((st.front.len() - 1) as usize, (st.front.len() - 1) as usize, None)
        }),
{
    let r = field_step(st, command_input(KeyTypeView::BackSpace), out);
    assert(st.front.drop_last() + Seq::<char>::empty() + st.back =~= st.front.drop_last() + st.back);
}

/// Select-all selects the whole text and leaves it unchanged.
pub proof fn law_select_all_selects_whole_text(st: EditState, out: ClipboardOutcome)
    requires
        (st.front + st.sel_text + st.back).len() <= usize::MAX,
    ensures
        ({
            let r = field_step(st, command_input(KeyTypeView::AllSelect), out);
            let whole = st.front + st.sel_text + st.back;
            &&& r matches Some(p) && !p.1
            &&& finish((r->0).0, None).0 == whole
            &&& (finish((r->0).0, None).1).0 == 0
            &&& (finish((r->0).0, None).1).1 == whole.len()
        }),
{
    let whole = st.front + st.sel_text + st.back;
    assert(Seq::<char>::empty() + whole + Seq::<char>::empty() =~= whole);
}

/// Copy with an open clipboard changes nothing in the field; Cut removes
/// the selection and records the removal: where the selection stood and the
/// text it held.
pub proof fn law_clipboard_commands(st: EditState, out: ClipboardOutcome)
    ensures
        out is Opened ==> field_step(st, command_input(KeyTypeView::Copy), out) == Some(
            (EditState { last_ime: false, ..st }, false),
        ),
        out is Opened ==> field_step(st, command_input(KeyTypeView::Cut), out) == Some(
            (
                EditState {
                    sel_text: Seq::empty(),
                    history: st.history.push(
                        HistoryItem::Command(
                            span(st.front.len() as int, (st.front.len() + st.sel_text.len()) as int, st.select.2),
                            st.sel_text,
                            Seq::empty(),
                        ),
                    ),
                    last_ime: false,
                    ..st
                },
                false,
            ),
        ),
{
}

/// Cutting a frame's text to a maximal length `m` cuts the text and the
/// selection alike: the text is the uncut text's first `m` characters, and
/// each end of the selection is where it would be without the cut, moved
/// back to `m` when it lies beyond it. So a cut that removes only text after
/// the selection leaves the selection as it would be without the cut.
pub proof fn law_cut_keeps_selection(st: EditState, m: usize)
    requires
        (st.front + st.sel_text + st.back).len() <= usize::MAX,
    ensures
        ({
            let whole = finish(st, None);
            let cut = finish(st, Some(m));
            &&& cut.0 == (if m < whole.0.len() {
                whole.0.take(m as int)
            } else {
                whole.0
            })
            &&& cut.1.0 == (if m < whole.1.0 {
                m
            } else {
                whole.1.0
            })
            &&& cut.1.1 == (if m < whole.1.1 {
                m
            } else {
                whole.1.1
            })
            &&& cut.1.2 == whole.1.2
            &&& whole.1.0 == st.front.len()
            &&& whole.1.1 == st.front.len() + st.sel_text.len()
            &&& m >= whole.1.1 ==> cut.1 == whole.1
        }),
{
}

/// Shift+Right grows a selection from one frame to the next: from a cursor,
/// or from a selection anchored at its start, a frame with one Shift+Right
/// ends with the text unchanged and the selection one character longer on
/// the right, anchored at its start. Frame after frame, the selection keeps
/// growing to the right.
pub proof fn law_shift_right_grows_selection(st: EditState, out: ClipboardOutcome)
    requires
        st.back.len() > 0,
        st.select.0 == st.front.len(),
        st.select.1 == st.front.len() + st.sel_text.len(),
        st.sel_text.len() == 0 || st.select.2 == Some(st.select.0),
        (st.front + st.sel_text + st.back).len() <= usize::MAX,
    ensures
        ({
            let k = KeyInformView {
                is_ime: None,
                is_finish: true,
                key: InformView::Select(SelectType::Extend(Direction::Right, false)),
            };
            field_step(st, k, out) matches Some(p) && !p.1 && {
                let fin = finish(p.0, None);
                &&& fin.0 == st.front + st.sel_text + st.back
                &&& fin.1 == Select(st.select.0, (st.select.1 + 1) as usize, Some(st.select.0))
            }
        }),
{
    let f = st.front;
    let s = st.sel_text;
    let b = st.back;
    assert(s + b.take(1) + b.skip(1) =~= s + b);
    assert(f + (s + b.take(1)) + b.skip(1) =~= f + s + b);
}

/// Shift+Left grows a selection from one frame to the next: from a cursor,
/// or from a selection anchored at its end, a frame with one Shift+Left ends
/// with the text unchanged and the selection one character longer on the
/// left, anchored at its end.
pub proof fn law_shift_left_grows_selection(st: EditState, out: ClipboardOutcome)
    requires
        st.front.len() > 0,
        st.select.0 == st.front.len(),
        st.select.1 == st.front.len() + st.sel_text.len(),
        st.sel_text.len() == 0 || st.select.2 == Some(st.select.1),
        (st.front + st.sel_text + st.back).len() <= usize::MAX,
    ensures
        ({
            let k = KeyInformView {
                is_ime: None,
                is_finish: true,
                key: InformView::Select(SelectType::Extend(Direction::Left, false)),
            };
            field_step(st, k, out) matches Some(p) && !p.1 && {
                let fin = finish(p.0, None);
                &&& fin.0 == st.front + st.sel_text + st.back
                &&& fin.1 == Select((st.select.0 - 1) as usize, st.select.1, Some(st.select.1))
            }
        }),
{
    let f = st.front;
    let s = st.sel_text;
    let b = st.back;
    let k = f.len() - 1;
    assert(f.take(k) + (f.skip(k) + s) =~= f + s);
    assert(f.take(k) + (f.skip(k) + s) + b =~= f + s + b);
}

/// An unfinished IME composition replaces the one before it: composing `t1`
/// after a finished input, then `t2` (which replaces as many characters as
/// `t1` has), leaves `t2` after the text before the cursor.
pub proof fn law_composition_replaces_previous(st: EditState, t1: Seq<char>, t2: Seq<char>, out: ClipboardOutcome)
    requires
        !st.last_ime,
        t1.len() <= usize::MAX,
    ensures
        ({
            let c1 = KeyInformView { is_ime: Some(1), is_finish: false, key: InformView::Key(KeyTypeView::Text(t1)) };
            let c2 = KeyInformView { is_ime: Some(t1.len() as usize), is_finish: false, key: InformView::Key(KeyTypeView::Text(t2)) };
            let s1 = field_step(st, c1, out);
            &&& s1 matches Some(p) && p.0.front == st.front + t1 && p.0.last_ime
            &&& field_step((s1->0).0, c2, out) matches Some(q) && q.0.front == st.front + t2
                && q.0.sel_text.len() == 0 && q.0.back == st.back
        }),
{
    let f1 = st.front + t1;
    assert(drop_chars(st.front, 0) =~= st.front);
    assert(drop_chars(f1, t1.len() as int) =~= st.front);
}

} // verus!
