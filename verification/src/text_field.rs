//! The text field itself: its text, its selection, its undo history and
//! its settings.
use vstd::prelude::*;

verus! {

/// A selection inside a text field, counted in characters: its start, its
/// end, and the anchor (the end that stays put while the selection is
/// extended with Shift), if any.
#[derive(Debug, Clone, Copy)]
pub struct Select(pub usize, pub usize, pub Option<usize>);

impl Select {
    /// The selection is empty: a plain cursor.
    pub fn is_close(&self) -> (r: bool)
        ensures
            r == (self.0 == self.1),
    {
        self.0 == self.1
    }

    /// The selection is anchored at its end, so that it grows or shrinks on
    /// its left side.
    pub fn is_open_left(&self) -> (r: bool)
        ensures
            r == (self.2 is Some && self.2->0 != self.0),
    {
        if let Some(last) = self.2 {
            return last != self.0;
        }
        false
    }

    /// The selection is anchored at its start, so that it grows or shrinks on
    /// its right side.
    pub fn is_open_right(&self) -> (r: bool)
        ensures
            r == (self.2 is Some && self.2->0 != self.1),
    {
        if let Some(last) = self.2 {
            return last != self.1;
        }
        false
    }
}

/// One edit, as the undo history records it: where the text it replaced
/// starts and ends (with the selection's anchor), the text it removed and
/// the text it inserted.
#[derive(Debug, Clone)]
pub struct Change {
    pub select: Select,
    pub before: String,
    pub after: String,
}

/// An entry of the undo history: an edit, or an undo of the `n + 1`
/// entries before it.
pub enum HistoryItem {
    Command(Select, Seq<char>, Seq<char>),
    Undo(nat),
}

impl Change {
    /// The history entry that records this edit.
    pub open spec fn item(&self) -> HistoryItem {
        HistoryItem::Command(self.select, self.before@, self.after@)
    }
}

#[verifier::external_type_specification]
#[verifier::external_body]
#[verifier::reject_recursive_types(T)]
pub struct ExCommands<T>(undo_2::Commands<T>);

#[verifier::external_type_specification]
#[verifier::external_body]
#[verifier::reject_recursive_types(T)]
pub struct ExCommandItem<T>(undo_2::CommandItem<T>);

#[verifier::external_type_specification]
#[verifier::external_body]
pub struct ExInstant(std::time::Instant);

/// The entries of an undo history, oldest first, as the history's `Deref`
/// to its slice of `CommandItem`s shows them: `Command(c)` is `c.item()`,
/// `Undo(n)` is `HistoryItem::Undo(n)`.
pub uninterp spec fn history_of(c: undo_2::Commands<Change>) -> Seq<HistoryItem>;

/// What `undo` does to the entries: after an edit it records an undo of that
/// edit; after an undo it extends that undo by one entry, if an entry is
/// left before it.
pub open spec fn undo_effect(h: Seq<HistoryItem>) -> Seq<HistoryItem> {
    if h.len() == 0 {
        h
    } else {
        match h.last() {
            HistoryItem::Command(..) => h.push(HistoryItem::Undo(0)),
            HistoryItem::Undo(i) => if i + 2 < h.len() {
                h.update(h.len() - 1, HistoryItem::Undo(i + 1))
            } else {
                h
            },
        }
    }
}

/// What `redo` does to the entries: it shortens the undo at the end by one
/// entry, or removes it when it undid only one.
pub open spec fn redo_effect(h: Seq<HistoryItem>) -> Seq<HistoryItem> {
    if h.len() == 0 {
        h
    } else {
        match h.last() {
            HistoryItem::Undo(i) => if i >= 1 {
                h.update(h.len() - 1, HistoryItem::Undo((i - 1) as nat))
            } else {
                h.drop_last()
            },
            HistoryItem::Command(..) => h,
        }
    }
}

/// `undo_2::Commands::new`: an empty history.
#[verifier::external_body]
fn commands_new() -> (c: undo_2::Commands<Change>)
    ensures
        history_of(c) == Seq::<HistoryItem>::empty(),
{
    undo_2::Commands::new()
}

/// `undo_2::Commands::push`: appends the edit to the entries.
#[verifier::external_body]
pub(crate) fn commands_push(c: &mut undo_2::Commands<Change>, change: Change)
    ensures
        history_of(*final(c)) == history_of(*old(c)).push(change.item()),
{
    c.push(change)
}

/// One step that an undo or a redo asks for: an edit to carry out again
/// (`redo`) or to take back, with what the edit recorded.
pub struct UndoAction {
    pub redo: bool,
    pub select: Select,
    pub before: Seq<char>,
    pub after: Seq<char>,
}

/// A step as the history hands it out: whether to carry the edit out again,
/// and the edit.
pub open spec fn action_view(p: (bool, Change)) -> UndoAction {
    UndoAction { redo: p.0, select: p.1.select, before: p.1.before@, after: p.1.after@ }
}

/// The steps as the history hands them out, in order.
pub open spec fn actions_view(v: Seq<(bool, Change)>) -> Seq<UndoAction> {
    v.map_values(|p: (bool, Change)| action_view(p))
}

/// The steps that `undo` asks for on a history with these entries, in the
/// order in which they are to be carried out.
pub uninterp spec fn undo_actions_of(h: Seq<HistoryItem>) -> Seq<UndoAction>;

/// The steps that `redo` asks for on a history with these entries, in the
/// order in which they are to be carried out.
pub uninterp spec fn redo_actions_of(h: Seq<HistoryItem>) -> Seq<UndoAction>;

/// The step that takes back (or, with `redo`, carries out again) an entry,
/// when the entry is an edit.
pub open spec fn command_action(item: HistoryItem, redo: bool) -> Option<UndoAction> {
    match item {
        HistoryItem::Command(select, before, after) => Some(
            UndoAction { redo, select, before, after },
        ),
        HistoryItem::Undo(_) => None,
    }
}

/// The steps that `undo` asks for where the history's source shows them in
/// a few lines: none on an empty history or when nothing is left to undo;
/// after an edit, taking back that edit; after an undo that leaves an edit
/// before it, taking back that edit. `None` where the entry to take back is
/// itself an undo.
pub open spec fn undo_actions_known(h: Seq<HistoryItem>) -> Option<Seq<UndoAction>> {
    if h.len() == 0 {
        Some(Seq::empty())
    } else {
        match h.last() {
            HistoryItem::Command(select, before, after) => Some(
                seq![UndoAction { redo: false, select, before, after }],
            ),
            HistoryItem::Undo(i) => if i + 2 < h.len() {
                match command_action(h[h.len() - i - 3], false) {
                    Some(x) => Some(seq![x]),
                    None => None,
                }
            } else {
                Some(Seq::empty())
            },
        }
    }
}

/// The steps that `redo` asks for where the history's source shows them in
/// a few lines: none unless the history ends with an undo; after an undo of
/// `i + 1` entries, carrying out again the last entry it undid, when that is
/// an edit. `None` where that entry is itself an undo.
pub open spec fn redo_actions_known(h: Seq<HistoryItem>) -> Option<Seq<UndoAction>> {
    if h.len() == 0 {
        Some(Seq::empty())
    } else {
        match h.last() {
            HistoryItem::Command(..) => Some(Seq::empty()),
            HistoryItem::Undo(i) => if i + 2 <= h.len() {
                match command_action(h[h.len() - 2 - i], true) {
                    Some(x) => Some(seq![x]),
                    None => None,
                }
            } else {
                None
            },
        }
    }
}

/// `undo_2::Commands::undo`: changes the entries as `undo_effect` says (the
/// source's `undo_repeat(0)`), and hands back the steps to carry out, each
/// as (carry out again?, the edit). The steps are named `undo_actions_of`;
/// where the source shows them in a few lines (`undo_actions_known`) they
/// are those. The call does not panic on a history that the crate's own
/// methods built: they keep every undo entry within the entries before it.
#[verifier::external_body]
pub(crate) fn commands_undo(c: &mut undo_2::Commands<Change>) -> (actions: Vec<(bool, Change)>)
    ensures
        history_of(*final(c)) == undo_effect(history_of(*old(c))),
        actions_view(actions@) == undo_actions_of(history_of(*old(c))),
        undo_actions_known(history_of(*old(c))) matches Some(a) ==> actions_view(actions@) == a,
{
    let mut actions = Vec::new();
    for (action, change) in c.undo() {
        let redo = match action {
            undo_2::Action::Do => true,
            undo_2::Action::Undo => false,
        };
        actions.push((redo, change.clone()));
    }
    actions
}

/// `undo_2::Commands::redo`: changes the entries as `redo_effect` says (the
/// source's `redo_repeat(0)`), and hands back the steps to carry out, each
/// as (carry out again?, the edit). The steps are named `redo_actions_of`;
/// where the source shows them in a few lines (`redo_actions_known`) they
/// are those. The call does not panic on a history that the crate's own
/// methods built.
#[verifier::external_body]
pub(crate) fn commands_redo(c: &mut undo_2::Commands<Change>) -> (actions: Vec<(bool, Change)>)
    ensures
        history_of(*final(c)) == redo_effect(history_of(*old(c))),
        actions_view(actions@) == redo_actions_of(history_of(*old(c))),
        redo_actions_known(history_of(*old(c))) matches Some(a) ==> actions_view(actions@) == a,
{
    let mut actions = Vec::new();
    for (action, change) in c.redo() {
        let redo = match action {
            undo_2::Action::Do => true,
            undo_2::Action::Undo => false,
        };
        actions.push((redo, change.clone()));
    }
    actions
}

/// `std::time::Instant::now`: the current time. Nothing is stated of it.
#[verifier::external_body]
fn instant_now() -> std::time::Instant {
    std::time::Instant::now()
}

/// A text field: its text, its selection and the history of its edits.
#[derive(Debug)]
pub struct TextField {
    pub text: String,
    pub select: Select,
    pub command: undo_2::Commands<Change>,
}

impl Default for TextField {
    fn default() -> (r: Self)
        ensures
            r.text@ == Seq::<char>::empty(),
            r.select == Select(0, 0, None),
            history_of(r.command) == Seq::<HistoryItem>::empty(),
    {
        TextField { text: String::new(), select: Select(0, 0, None), command: commands_new() }
    }
}

/// The settings of a text field.
pub struct TextFieldInfo {
    pub focus: bool,
    pub max_length: Option<usize>,
    pub placeholder: Option<String>,
    pub changeable_focus_with_click: bool,
}

impl Default for TextFieldInfo {
    fn default() -> (r: Self)
        ensures
            r.focus,
            r.max_length is None,
            r.placeholder is None,
            r.changeable_focus_with_click,
    {
        TextFieldInfo {
            focus: true,
            max_length: None,
            placeholder: None,
            changeable_focus_with_click: true,
        }
    }
}

/// Marks the part of a text field that shows the placeholder.
pub struct Placeholder;

/// What a placeholder shows: the placeholder text (or nothing) while the
/// field is empty, and nothing once it holds text.
pub fn placeholder_span(text: &String, placeholder: &Option<String>) -> (r: String)
    ensures
        r@ == (if text@.len() == 0 {
            match placeholder {
                Some(p) => p@,
                None => Seq::<char>::empty(),
            }
        } else {
            Seq::<char>::empty()
        }),
{
    if text.as_str().is_empty() {
        match placeholder {
            Some(p) => p.clone(),
            None => String::new(),
        }
    } else {
        String::new()
    }
}

/// The input state of a text field: whether the last text came from an
/// unfinished IME composition, and when the text last changed.
pub struct TextFieldInput {
    pub is_last_text_ime: bool,
    pub last_change_time: std::time::Instant,
}

impl Default for TextFieldInput {
    fn default() -> (r: Self)
        ensures
            !r.is_last_text_ime,
    {
        TextFieldInput { is_last_text_ime: false, last_change_time: instant_now() }
    }
}

/// The three displayed parts of a text field: the text before the
/// selection, the selection (with the text it showed last), and the text
/// after it.
#[derive(Debug, PartialEq, Clone)]
pub enum TextFieldPosition {
    Front,
    Select(String),
    Back,
}

/// A left click changes the focus of every field that allows it: the field
/// under the pointer gets it, every other field loses it. Entities are given
/// by their bits.
pub fn change_focus_on_click(info: &mut TextFieldInfo, entity: u64, over_field: Option<u64>)
    ensures
        final(info).focus == (if old(info).changeable_focus_with_click {
            over_field == Some(entity)
        } else {
            old(info).focus
        }),
        final(info).max_length == old(info).max_length,
        final(info).placeholder == old(info).placeholder,
        final(info).changeable_focus_with_click == old(info).changeable_focus_with_click,
{
    if !info.changeable_focus_with_click {
        return;
    }
    info.focus = match over_field {
        None => false,
        Some(e) => entity == e,
    };
}

/// The field under the pointer after the pointer left `target`: none if it
/// was `target`, else unchanged.
pub fn over_field_after_out(over_field: Option<u64>, target: u64) -> (r: Option<u64>)
    ensures
        r == (if over_field == Some(target) {
            None
        } else {
            over_field
        }),
{
    if let Some(entity) = over_field {
        if entity == target {
            return None;
        }
    }
    over_field
}

/// Undoing the last edit and redoing it brings the history back to what it
/// was after the edit.
pub proof fn law_undo_then_redo_restores(h: Seq<HistoryItem>, change: Change)
    ensures
        redo_effect(undo_effect(h.push(change.item()))) == h.push(change.item()),
{
    let h1 = h.push(change.item());
    assert(undo_effect(h1) == h1.push(HistoryItem::Undo(0)));
    assert(undo_effect(h1).drop_last() =~= h1);
}

} // verus!
