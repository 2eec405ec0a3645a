//! Arrow keys: moving the cursor and extending the selection.
use vstd::prelude::*;

use super::control::{
    first_nl, lemma_after_last_nl, lemma_back_ctrl_point_bound, lemma_front_ctrl_point_bound,
    law_down_ctrl_keeps_text,
    down_ctrl_parts, front_ctrl_point, back_ctrl_point, up_ctrl_point, get_back_ctrl,
    get_down_ctrl, get_front_ctrl, get_up_ctrl,
};
use super::select_list::{
    down_target, get_down_usize, lemma_targets_nonneg, get_up_usize, set_down_extend, set_left_area,
    set_left_area_ctrl, set_left_extend, set_right_area, set_right_area_ctrl, set_right_extend,
    set_up_extend, up_target,
};
use super::input::{opt_inform, InformType, InformView};
use super::Key;
use crate::text_field::{Select, TextField};
use crate::tool::{char_string, clamp, join2, pop_char, ToolString};

verus! {

/// An arrow key, with whether Ctrl was held; `Extend` is an arrow key with
/// Shift held.
#[derive(Debug, PartialEq, Eq, Structural, Clone, Copy)]
pub enum SelectType {
    Up(bool),
    Left(bool),
    Right(bool),
    Down(bool),
    Extend(Direction, bool),
}

/// The direction of an arrow key.
#[derive(Debug, PartialEq, Eq, Structural, Clone, Copy)]
pub enum Direction {
    Up,
    Left,
    Right,
    Down,
}

/// The cursor movement that an arrow key asks for, without Shift.
pub open spec fn select_type_of(key: Key, is_ctrl: bool) -> Option<SelectType> {
    match key {
        Key::ArrowLeft => Some(SelectType::Left(is_ctrl)),
        Key::ArrowRight => Some(SelectType::Right(is_ctrl)),
        Key::ArrowUp => Some(SelectType::Up(is_ctrl)),
        Key::ArrowDown => Some(SelectType::Down(is_ctrl)),
        _ => None,
    }
}

/// The selection change that an arrow key asks for, with Shift.
pub open spec fn shift_select_type_of(key: Key, is_ctrl: bool) -> Option<SelectType> {
    match key {
        Key::ArrowLeft => Some(SelectType::Extend(Direction::Left, is_ctrl)),
        Key::ArrowRight => Some(SelectType::Extend(Direction::Right, is_ctrl)),
        Key::ArrowUp => Some(SelectType::Extend(Direction::Up, is_ctrl)),
        Key::ArrowDown => Some(SelectType::Extend(Direction::Down, is_ctrl)),
        _ => None,
    }
}

/// Sets `add_key` to the cursor movement of an arrow key (Shift not held);
/// leaves it for other keys.
pub fn get_select_informtype(key: Key, add_key: &mut Option<InformType>, is_pressed_crtrl: bool)
    ensures
        opt_inform(*final(add_key)) == (match select_type_of(key, is_pressed_crtrl) {
            Some(t) => Some(InformView::Select(t)),
            None => opt_inform(*old(add_key)),
        }),
{
    match key {
        Key::ArrowLeft => {
            *add_key = Some(InformType::SelectType(SelectType::Left(is_pressed_crtrl)));
        },
        Key::ArrowRight => {
            *add_key = Some(InformType::SelectType(SelectType::Right(is_pressed_crtrl)));
        },
        Key::ArrowUp => {
            *add_key = Some(InformType::SelectType(SelectType::Up(is_pressed_crtrl)));
        },
        Key::ArrowDown => {
            *add_key = Some(InformType::SelectType(SelectType::Down(is_pressed_crtrl)));
        },
        _ => {},
    }
}

/// Sets `add_key` to the selection change of an arrow key with Shift held;
/// leaves it for other keys.
pub fn get_select_shift_informtype(key: Key, add_key: &mut Option<InformType>, is_pressed_ctrl: bool)
    ensures
        opt_inform(*final(add_key)) == (match shift_select_type_of(key, is_pressed_ctrl) {
            Some(t) => Some(InformView::Select(t)),
            None => opt_inform(*old(add_key)),
        }),
{
    match key {
        Key::ArrowLeft => {
            *add_key = Some(
                InformType::SelectType(SelectType::Extend(Direction::Left, is_pressed_ctrl)),
            );
        },
        Key::ArrowRight => {
            *add_key = Some(
                InformType::SelectType(SelectType::Extend(Direction::Right, is_pressed_ctrl)),
            );
        },
        Key::ArrowUp => {
            *add_key = Some(
                InformType::SelectType(SelectType::Extend(Direction::Up, is_pressed_ctrl)),
            );
        },
        Key::ArrowDown => {
            *add_key = Some(
                InformType::SelectType(SelectType::Extend(Direction::Down, is_pressed_ctrl)),
            );
        },
        _ => {},
    }
}

/// The parts of a text field after an arrow key, the field's new selection
/// record, and whether the key stopped the handling of further keys.
pub open spec fn select_step(key: SelectType, f: Seq<char>, s: Seq<char>, b: Seq<char>, sel: Select) -> (
    Seq<char>,
    Seq<char>,
    Seq<char>,
    Select,
    bool,
) {
    match key {
        SelectType::Extend(dir, ctrl) => match dir {
            Direction::Left => extend_left(ctrl, f, s, b, sel),
            Direction::Right => extend_right(ctrl, f, s, b, sel),
            Direction::Up => extend_up(ctrl, f, s, b, sel),
            Direction::Down => extend_down(ctrl, f, s, b, sel),
        },
        _ => move_step(key, f, s, b, sel),
    }
}

/// An arrow key without Shift: the cursor moves and the selection is
/// dropped; Ctrl moves by a word (left and right) or to the line's edge (up
/// and down).
pub open spec fn move_step(key: SelectType, f: Seq<char>, s: Seq<char>, b: Seq<char>, sel: Select) -> (
    Seq<char>,
    Seq<char>,
    Seq<char>,
    Select,
    bool,
) {
    let close = sel.0 == sel.1;
    let cat = f + s + b;
    let empty = Seq::<char>::empty();
    match key {
        SelectType::Left(ctrl) => if ctrl {
            let p = front_ctrl_point(f) as int;
            (f.take(p), empty, f.skip(p) + s + b, sel, false)
        } else if close && f.len() > 0 {
            (f.drop_last(), empty, seq![f.last()] + s + b, sel, false)
        } else {
            (f, empty, s + b, sel, false)
        },
        SelectType::Right(ctrl) => if ctrl {
            let p = back_ctrl_point(b) as int;
            (f + s + b.take(p), empty, b.skip(p), sel, false)
        } else if close && b.len() > 0 {
            (f + s + seq![b[0]], empty, b.drop_first(), sel, false)
        } else {
            (f + s, empty, b, sel, false)
        },
        SelectType::Up(ctrl) => if ctrl {
            if f.len() == 0 {
                (f, s, b, sel, true)
            } else {
                let p = up_ctrl_point(f) as int;
                (f.take(p), empty, f.skip(p) + s + b, sel, false)
            }
        } else {
            let k = clamp(f, up_target(cat, sel.0 as int));
            (f.take(k), empty, f.skip(k) + s + b, sel, false)
        },
        SelectType::Down(ctrl) => if ctrl {
            if b.len() == 0 {
                (f, s, b, sel, true)
            } else {
                let d = down_ctrl_parts(b);
                (f + s + d.0, empty, d.1, sel, false)
            }
        } else {
            let k = clamp(b, down_target(cat, sel.1 as int) - f.len());
            (f + s + b.take(k), empty, b.skip(k), sel, false)
        },
        SelectType::Extend(..) => (f, s, b, sel, false),
    }
}

/// The selection record after a Shift move: the first one from a plain
/// cursor anchors the selection at the cursor.
pub open spec fn anchored(sel: Select) -> Select {
    if sel.0 == sel.1 {
        Select(sel.0, sel.1, Some(sel.0))
    } else {
        sel
    }
}

/// Shift+Left: from a cursor or a selection anchored at its end, the
/// selection grows by a character or a word on the left; otherwise it
/// shrinks by one on the right.
pub open spec fn extend_left(ctrl: bool, f: Seq<char>, s: Seq<char>, b: Seq<char>, sel: Select) -> (
    Seq<char>,
    Seq<char>,
    Seq<char>,
    Select,
    bool,
) {
    let close = sel.0 == sel.1;
    let open_left = sel.2 is Some && sel.2->0 != sel.0;
    if open_left || close {
        if f.len() == 0 {
            (f, s, b, sel, true)
        } else {
            let k = if ctrl {
                front_ctrl_point(f) as int
            } else {
                f.len() - 1
            };
            (f.take(k), f.skip(k) + s, b, anchored(sel), false)
        }
    } else if ctrl {
        let p = front_ctrl_point(s) as int;
        (f, s.take(p), s.skip(p) + b, anchored(sel), false)
    } else {
        (f, s.drop_last(), seq![s.last()] + b, anchored(sel), false)
    }
}

/// Shift+Right: from a cursor or a selection anchored at its start, the
/// selection grows by a character or a word on the right; otherwise it
/// shrinks by one on the left.
pub open spec fn extend_right(ctrl: bool, f: Seq<char>, s: Seq<char>, b: Seq<char>, sel: Select) -> (
    Seq<char>,
    Seq<char>,
    Seq<char>,
    Select,
    bool,
) {
    let close = sel.0 == sel.1;
    let open_right = sel.2 is Some && sel.2->0 != sel.1;
    if open_right || close {
        if b.len() == 0 {
            (f, s, b, sel, true)
        } else {
            let k = if ctrl {
                back_ctrl_point(b) as int
            } else {
                1
            };
            (f, s + b.take(k), b.skip(k), anchored(sel), false)
        }
    } else if ctrl {
        let p = back_ctrl_point(s) as int;
        (f + s.take(p), s.skip(p), b, anchored(sel), false)
    } else {
        (f + seq![s[0]], s.drop_first(), b, anchored(sel), false)
    }
}

/// Shift+Up: from a cursor or a selection anchored at its end, the selection
/// grows to one line up from its start; otherwise its end moves one line up.
pub open spec fn extend_up(ctrl: bool, f: Seq<char>, s: Seq<char>, b: Seq<char>, sel: Select) -> (
    Seq<char>,
    Seq<char>,
    Seq<char>,
    Select,
    bool,
) {
    let close = sel.0 == sel.1;
    let open_left = sel.2 is Some && sel.2->0 != sel.0;
    let cat = f + s + b;
    if open_left || close {
        let k = if ctrl {
            up_ctrl_point(f) as int
        } else {
            clamp(f, up_target(cat, sel.0 as int))
        };
        (f.take(k), f.skip(k) + s, b, anchored(sel), false)
    } else {
        let k = if ctrl {
            up_ctrl_point(s) as int
        } else {
            clamp(s, up_target(cat, sel.1 as int) - f.len())
        };
        (f, s.take(k), s.skip(k) + b, anchored(sel), false)
    }
}

/// Shift+Down: from a cursor or a selection anchored at its start, the
/// selection grows to one line down from its end; otherwise its start moves
/// one line down.
pub open spec fn extend_down(ctrl: bool, f: Seq<char>, s: Seq<char>, b: Seq<char>, sel: Select) -> (
    Seq<char>,
    Seq<char>,
    Seq<char>,
    Select,
    bool,
) {
    let close = sel.0 == sel.1;
    let open_right = sel.2 is Some && sel.2->0 != sel.1;
    let cat = f + s + b;
    if open_right || close {
        let d = if ctrl {
            down_ctrl_parts(b)
        } else {
            let k = clamp(b, down_target(cat, sel.1 as int) - f.len() - s.len());
            (b.take(k), b.skip(k))
        };
        (f, s + d.0, d.1, anchored(sel), false)
    } else {
        let d = if ctrl {
            down_ctrl_parts(s)
        } else {
            let k = clamp(s, down_target(cat, sel.0 as int) - f.len());
            (s.take(k), s.skip(k))
        };
        (f + d.0, d.1, b, anchored(sel), false)
    }
}

/// The inputs on which an arrow key is handled without an arithmetic
/// underflow or an empty selection being taken from: the target of a line
/// move must not lie before the part it is counted from, and shrinking a
/// selection needs one.
pub open spec fn select_step_ok(key: SelectType, f: Seq<char>, s: Seq<char>, b: Seq<char>, sel: Select) -> bool {
    let close = sel.0 == sel.1;
    let open_left = sel.2 is Some && sel.2->0 != sel.0;
    let open_right = sel.2 is Some && sel.2->0 != sel.1;
    let cat = f + s + b;
    match key {
        SelectType::Down(false) => down_target(cat, sel.1 as int) >= f.len(),
        SelectType::Extend(Direction::Left, false) => open_left || close || s.len() > 0,
        SelectType::Extend(Direction::Right, false) => open_right || close || s.len() > 0,
        SelectType::Extend(Direction::Up, false) => open_left || close || up_target(cat, sel.1 as int) >= f.len(),
        SelectType::Extend(Direction::Down, false) => if open_right || close {
            down_target(cat, sel.1 as int) >= f.len() + s.len()
        } else {
            down_target(cat, sel.0 as int) >= f.len()
        },
        _ => true,
    }
}

/// Whether an arrow key can be handled on these parts and selection record
/// (see `select_step_ok`).
pub fn select_step_allowed(key: &SelectType, text_list: &mut [String; 3], select: Select) -> (r: bool)
    ensures
        *final(text_list) == *old(text_list),
        r == select_step_ok(*key, old(text_list)[0]@, old(text_list)[1]@, old(text_list)[2]@, select),
{
    let is_close = select.is_close();
    match key {
        SelectType::Down(false) => get_down_usize(text_list, select.1) >= text_list[0].size(),
        SelectType::Extend(Direction::Left, false) => select.is_open_left() || is_close
            || !text_list[1].as_str().is_empty(),
        SelectType::Extend(Direction::Right, false) => select.is_open_right() || is_close
            || !text_list[1].as_str().is_empty(),
        SelectType::Extend(Direction::Up, false) => select.is_open_left() || is_close
            || get_up_usize(text_list, select.1) >= text_list[0].size(),
        SelectType::Extend(Direction::Down, false) => {
            if select.is_open_right() || is_close {
                let used = text_list[0].size() as u128 + text_list[1].size() as u128;
                get_down_usize(text_list, select.1) as u128 >= used
            } else {
                get_down_usize(text_list, select.0) >= text_list[0].size()
            }
        },
        _ => true,
    }
}

/// Handles an arrow key: moves the cursor (dropping the selection) or grows
/// or shrinks the selection, by a character, a word (Ctrl) or a line. The
/// first Shift move from a plain cursor anchors the selection there.
/// Returns true when the key has nothing to act on and the handling of the
/// remaining keys stops.
pub fn set_select_text_list(key: &SelectType, text_list: &mut [String; 3], text_field: &mut TextField) -> (r: bool)
    requires
        select_step_ok(*key, old(text_list)[0]@, old(text_list)[1]@, old(text_list)[2]@, old(text_field).select),
    ensures
        ({
            let st = select_step(*key, old(text_list)[0]@, old(text_list)[1]@, old(text_list)[2]@, old(text_field).select);
            &&& final(text_list)[0]@ == st.0
            &&& final(text_list)[1]@ == st.1
            &&& final(text_list)[2]@ == st.2
            &&& final(text_field).select == st.3
            &&& r == st.4
        }),
        final(text_field).text == old(text_field).text,
        final(text_field).command == old(text_field).command,
{
    let is_close = text_field.select.is_close();
    let mut is_extend = false;
    match key {
        SelectType::Left(is_ctrl) => {
            if *is_ctrl {
                let list = get_front_ctrl(text_list[0].clone());
                set_left_area_ctrl(text_list, list);
            } else {
                let mut add_text = String::new();
                if is_close {
                    let mut front = text_list[0].clone();
                    add_text = if let Some(ch) = pop_char(&mut front) {
                        char_string(ch)
                    } else {
                        String::new()
                    };
                    text_list[0] = front;
                }
                set_left_area(text_list, add_text);
            }
        },
        SelectType::Right(is_ctrl) => {
            if *is_ctrl {
                let list = get_back_ctrl(text_list[2].clone());
                set_right_area_ctrl(text_list, list);
            } else {
                let mut add_text = String::new();
                if is_close {
                    let mut back = text_list[2].clone();
                    add_text = if let Some(ch) = back.front_pop() {
                        char_string(ch)
                    } else {
                        String::new()
                    };
                    text_list[2] = back;
                }
                set_right_area(text_list, add_text);
            }
        },
        SelectType::Up(is_ctrl) => {
            if *is_ctrl {
                if text_list[0].as_str().is_empty() {
                    return true;
                }
                let list = get_up_ctrl(text_list[0].clone());
                set_left_area_ctrl(text_list, list);
            } else {
                let change_select_usize = get_up_usize(text_list, text_field.select.0);
                let split_front = text_list[0].split_chars_at(change_select_usize);
                text_list[0] = split_front[0].clone();
                set_left_area(text_list, split_front[1].clone());
            }
        },
        SelectType::Down(is_ctrl) => {
            if *is_ctrl {
                if text_list[2].as_str().is_empty() {
                    return true;
                }
                let list = get_down_ctrl(text_list[2].clone());
                set_right_area_ctrl(text_list, list);
            } else {
                let change_select_usize = get_down_usize(text_list, text_field.select.1);
                let split_back = text_list[2].split_chars_at(change_select_usize - text_list[0].size());
                text_list[2] = split_back[1].clone();
                set_right_area(text_list, split_back[0].clone());
            }
        },
        SelectType::Extend(direction, is_ctrl) => {
            is_extend = true;
            match direction {
                Direction::Left => {
                    if text_field.select.is_open_left() || is_close {
                        if text_list[0].as_str().is_empty() {
                            return true;
                        }
                        set_left_extend(text_list, is_ctrl);
                    } else {
                        let add_text = if *is_ctrl {
                            let list = get_front_ctrl(text_list[1].clone());
                            text_list[1] = list[0].clone();
                            list[1].clone()
                        } else {
                            let mut sel = text_list[1].clone();
                            let c = pop_char(&mut sel).unwrap();
                            text_list[1] = sel;
                            char_string(c)
                        };
                        text_list[2] = join2(add_text.as_str(), text_list[2].as_str());
                    }
                },
                Direction::Right => {
                    if text_field.select.is_open_right() || is_close {
                        if text_list[2].as_str().is_empty() {
                            return true;
                        }
                        set_right_extend(text_list, is_ctrl);
                    } else {
                        let add_text = if *is_ctrl {
                            let list = get_back_ctrl(text_list[1].clone());
                            text_list[1] = list[1].clone();
                            list[0].clone()
                        } else {
                            let mut sel = text_list[1].clone();
                            let c = sel.front_pop().unwrap();
                            text_list[1] = sel;
                            char_string(c)
                        };
                        text_list[0] = join2(text_list[0].as_str(), add_text.as_str());
                    }
                },
                Direction::Up => {
                    if text_field.select.is_open_left() || is_close {
                        set_up_extend(text_list, text_field, is_ctrl);
                    } else {
                        let list = if *is_ctrl {
                            get_up_ctrl(text_list[1].clone())
                        } else {
                            let change_select_usize = get_up_usize(text_list, text_field.select.1);
                            text_list[1].split_chars_at(change_select_usize - text_list[0].size())
                        };
                        text_list[1] = list[0].clone();
                        text_list[2] = join2(list[1].as_str(), text_list[2].as_str());
                    }
                },
                Direction::Down => {
                    if text_field.select.is_open_right() || is_close {
                        set_down_extend(text_list, text_field, is_ctrl);
                    } else {
                        let list = if *is_ctrl {
                            get_down_ctrl(text_list[1].clone())
                        } else {
                            let change_select_usize = get_down_usize(text_list, text_field.select.0);
                            text_list[1].split_chars_at(change_select_usize - text_list[0].size())
                        };
                        text_list[1] = list[1].clone();
                        text_list[0] = join2(text_list[0].as_str(), list[0].as_str());
                    }
                },
            }
        },
    }
    if is_extend && is_close {
        text_field.select.2 = Some(text_field.select.0);
    } else if !is_extend {
        text_list[1] = String::new();
    }
    false
}

/// The text that Ctrl+Down splits at loses its line break (see
/// `down_ctrl_parts`).
pub open spec fn down_ctrl_drops_break(x: Seq<char>) -> bool {
    x.len() > 1 && x.last() == '\n' && first_nl(x) == x.len() - 1
}

/// Arrow keys only move the cursor and the selection: the text of the field,
/// the three parts put together, is the same before and after, except when
/// Ctrl+Down splits at a text whose only line break ends it.
pub proof fn law_arrow_keys_keep_text(key: SelectType, f: Seq<char>, s: Seq<char>, b: Seq<char>, sel: Select)
    requires
        select_step_ok(key, f, s, b, sel),
        key == SelectType::Down(true) ==> !down_ctrl_drops_break(b),
        key == SelectType::Extend(Direction::Down, true) ==> !down_ctrl_drops_break(b)
            && !down_ctrl_drops_break(s),
    ensures
        ({
            let st = select_step(key, f, s, b, sel);
            st.0 + st.1 + st.2 == f + s + b
        }),
{
    let st = select_step(key, f, s, b, sel);
    let cat = f + s + b;
    lemma_targets_nonneg(cat, sel.0 as int);
    lemma_targets_nonneg(cat, sel.1 as int);
    match key {
        SelectType::Left(ctrl) => {
            lemma_front_ctrl_point_bound(f);
            if !ctrl && sel.0 == sel.1 && f.len() > 0 {
                assert(f.drop_last() + seq![f.last()] =~= f);
            }
            assert(st.0 + st.1 + st.2 =~= cat);
        },
        SelectType::Right(ctrl) => {
            lemma_back_ctrl_point_bound(b);
            if !ctrl && sel.0 == sel.1 && b.len() > 0 {
                assert(seq![b[0]] + b.drop_first() =~= b);
            }
            assert(st.0 + st.1 + st.2 =~= cat);
        },
        SelectType::Up(_) => {
            lemma_after_last_nl(f);
            assert(st.0 + st.1 + st.2 =~= cat);
        },
        SelectType::Down(ctrl) => {
            if ctrl && b.len() > 0 {
                law_down_ctrl_keeps_text(b);
            }
            assert(st.0 + st.1 + st.2 =~= cat);
        },
        SelectType::Extend(dir, ctrl) => {
            lemma_arrow_extend_keeps_text(dir, ctrl, f, s, b, sel);
        },
    }
}

proof fn lemma_arrow_extend_keeps_text(dir: Direction, ctrl: bool, f: Seq<char>, s: Seq<char>, b: Seq<char>, sel: Select)
    requires
        select_step_ok(SelectType::Extend(dir, ctrl), f, s, b, sel),
        dir == Direction::Down && ctrl ==> !down_ctrl_drops_break(b) && !down_ctrl_drops_break(s),
    ensures
        ({
            let st = select_step(SelectType::Extend(dir, ctrl), f, s, b, sel);
            st.0 + st.1 + st.2 == f + s + b
        }),
{
    let cat = f + s + b;
    lemma_targets_nonneg(cat, sel.0 as int);
    lemma_targets_nonneg(cat, sel.1 as int);
    match dir {
        Direction::Left => lemma_extend_left_keeps_text(ctrl, f, s, b, sel),
        Direction::Right => lemma_extend_right_keeps_text(ctrl, f, s, b, sel),
        Direction::Up => lemma_extend_up_keeps_text(ctrl, f, s, b, sel),
        Direction::Down => lemma_extend_down_keeps_text(ctrl, f, s, b, sel),
    }
}

proof fn lemma_extend_left_keeps_text(ctrl: bool, f: Seq<char>, s: Seq<char>, b: Seq<char>, sel: Select)
    requires
        select_step_ok(SelectType::Extend(Direction::Left, ctrl), f, s, b, sel),
    ensures
        ({
            let st = select_step(SelectType::Extend(Direction::Left, ctrl), f, s, b, sel);
            st.0 + st.1 + st.2 == f + s + b
        }),
{
    let st = select_step(SelectType::Extend(Direction::Left, ctrl), f, s, b, sel);
    lemma_front_ctrl_point_bound(f);
    lemma_front_ctrl_point_bound(s);
    if s.len() > 0 {
        assert(s.drop_last() + seq![s.last()] =~= s);
    }
    assert(st.0 + st.1 + st.2 =~= f + s + b);
}

proof fn lemma_extend_right_keeps_text(ctrl: bool, f: Seq<char>, s: Seq<char>, b: Seq<char>, sel: Select)
    requires
        select_step_ok(SelectType::Extend(Direction::Right, ctrl), f, s, b, sel),
    ensures
        ({
            let st = select_step(SelectType::Extend(Direction::Right, ctrl), f, s, b, sel);
            st.0 + st.1 + st.2 == f + s + b
        }),
{
    let st = select_step(SelectType::Extend(Direction::Right, ctrl), f, s, b, sel);
    lemma_back_ctrl_point_bound(b);
    lemma_back_ctrl_point_bound(s);
    if s.len() > 0 {
        assert(seq![s[0]] + s.drop_first() =~= s);
    }
    assert(st.0 + st.1 + st.2 =~= f + s + b);
}

proof fn lemma_extend_up_keeps_text(ctrl: bool, f: Seq<char>, s: Seq<char>, b: Seq<char>, sel: Select)
    requires
        select_step_ok(SelectType::Extend(Direction::Up, ctrl), f, s, b, sel),
        up_target(f + s + b, sel.0 as int) >= 0,
        up_target(f + s + b, sel.1 as int) >= 0,
    ensures
        ({
            let st = select_step(SelectType::Extend(Direction::Up, ctrl), f, s, b, sel);
            st.0 + st.1 + st.2 == f + s + b
        }),
{
    let st = select_step(SelectType::Extend(Direction::Up, ctrl), f, s, b, sel);
    lemma_after_last_nl(f);
    lemma_after_last_nl(s);
    assert(st.0 + st.1 + st.2 =~= f + s + b);
}

proof fn lemma_extend_down_keeps_text(ctrl: bool, f: Seq<char>, s: Seq<char>, b: Seq<char>, sel: Select)
    requires
        select_step_ok(SelectType::Extend(Direction::Down, ctrl), f, s, b, sel),
        ctrl ==> !down_ctrl_drops_break(b) && !down_ctrl_drops_break(s),
    ensures
        ({
            let st = select_step(SelectType::Extend(Direction::Down, ctrl), f, s, b, sel);
            st.0 + st.1 + st.2 == f + s + b
        }),
{
    let st = select_step(SelectType::Extend(Direction::Down, ctrl), f, s, b, sel);
    if ctrl {
        law_down_ctrl_keeps_text(b);
        law_down_ctrl_keeps_text(s);
    }
    assert(st.0 + st.1 + st.2 =~= f + s + b);
}
/// Left then Right from a plain cursor, with no selection, brings the
/// cursor back where it was; so does Right then Left.
pub proof fn law_left_right_inverse(f: Seq<char>, b: Seq<char>, sel: Select)
    requires
        sel.0 == sel.1,
    ensures
        f.len() > 0 ==> {
            let l = select_step(SelectType::Left(false), f, Seq::empty(), b, sel);
            let r = select_step(SelectType::Right(false), l.0, l.1, l.2, l.3);
            r.0 == f && r.1 == Seq::<char>::empty() && r.2 == b
        },
        b.len() > 0 ==> {
            let r = select_step(SelectType::Right(false), f, Seq::empty(), b, sel);
            let l = select_step(SelectType::Left(false), r.0, r.1, r.2, r.3);
            l.0 == f && l.1 == Seq::<char>::empty() && l.2 == b
        },
{
    let e = Seq::<char>::empty();
    if f.len() > 0 {
        let l = select_step(SelectType::Left(false), f, e, b, sel);
        assert(l.2 == seq![f.last()] + e + b);
        assert(l.2[0] == f.last());
        assert(l.2.drop_first() =~= b);
        assert(l.0 + e + seq![l.2[0]] =~= f);
    }
    if b.len() > 0 {
        let r = select_step(SelectType::Right(false), f, e, b, sel);
        assert(r.0 == f + e + seq![b[0]]);
        assert(r.0.drop_last() =~= f);
        assert(seq![r.0.last()] + e + r.2 =~= b);
    }
}

/// The first Shift move from a plain cursor anchors the selection at the
/// cursor: for every direction, with or without Ctrl, a Shift+arrow key from
/// a selection record whose two ends agree, and that does not stop the
/// frame, leaves the record at the cursor with the cursor as its anchor.
pub proof fn law_shift_from_cursor_anchors(dir: Direction, ctrl: bool, f: Seq<char>, s: Seq<char>, b: Seq<char>, sel: Select)
    requires
        sel.0 == sel.1,
    ensures
        ({
            let r = select_step(SelectType::Extend(dir, ctrl), f, s, b, sel);
            !r.4 ==> r.3 == Select(sel.0, sel.0, Some(sel.0))
        }),
{
}

} // verus!
