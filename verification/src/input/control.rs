//! Word-wise (Ctrl+Arrow) and line-wise movement: where a run of
//! characters of one kind, or a line, begins and ends.
use vstd::prelude::*;

use crate::tool::{chars_of, join2, string_of, sub_chars};

verus! {

/// The kind of a character, for the purpose of jumping over words.
#[derive(Debug, PartialEq, Eq, Structural, Clone, Copy)]
pub enum TextDataType {
    End,
    Tab,
    Blank,
    Pause,
    NextLine,
    Word,
}

/// The punctuation that ends a word.
pub open spec fn is_end_char(c: char) -> bool {
    ||| c == '~' || c == '!' || c == '@' || c == '#' || c == '$' || c == '%'
    ||| c == '^' || c == '&' || c == '*' || c == '(' || c == ')' || c == '_'
    ||| c == '+' || c == '`' || c == '{' || c == '}' || c == '|' || c == '['
    ||| c == ']' || c == '\\' || c == ':' || c == '"' || c == ';' || c == '\''
    ||| c == ',' || c == '.' || c == '/' || c == '<' || c == '>' || c == '?'
}

/// The kind of a character. Punctuation wins over every other kind, so a
/// comma counts as punctuation.
pub open spec fn char_class(c: char) -> TextDataType {
    if is_end_char(c) {
        TextDataType::End
    } else if c == '\t' {
        TextDataType::Tab
    } else if c == ' ' {
        TextDataType::Blank
    } else if c == '\n' {
        TextDataType::NextLine
    } else if c == ',' {
        TextDataType::Pause
    } else {
        TextDataType::Word
    }
}

/// The kind of a character.
pub fn classify(c: char) -> (t: TextDataType)
    ensures
        t == char_class(c),
{
    let now = if c == '\t' {
        TextDataType::Tab
    } else if c == ' ' {
        TextDataType::Blank
    } else if c == '\n' {
        TextDataType::NextLine
    } else if c == ',' {
        TextDataType::Pause
    } else {
        TextDataType::Word
    };
    let is_end = c == '~' || c == '!' || c == '@' || c == '#' || c == '$' || c == '%' || c == '^'
        || c == '&' || c == '*' || c == '(' || c == ')' || c == '_' || c == '+' || c == '`'
        || c == '{' || c == '}' || c == '|' || c == '[' || c == ']' || c == '\\' || c == ':'
        || c == '"' || c == ';' || c == '\'' || c == ',' || c == '.' || c == '/' || c == '<'
        || c == '>' || c == '?';
    if is_end {
        TextDataType::End
    } else {
        now
    }
}

/// The length of the run of characters of one kind at the start of `s`.
pub open spec fn run_from_start(s: Seq<char>) -> nat
    decreases s.len(),
{
    if s.len() <= 1 {
        s.len()
    } else if char_class(s[1]) == char_class(s[0]) {
        1 + run_from_start(s.drop_first())
    } else {
        1
    }
}

/// The length of the run of characters of one kind at the end of `s`.
pub open spec fn run_from_end(s: Seq<char>) -> nat
    decreases s.len(),
{
    if s.len() <= 1 {
        s.len()
    } else if char_class(s[s.len() - 2]) == char_class(s.last()) {
        1 + run_from_end(s.drop_last())
    } else {
        1
    }
}

/// Where the scan from the start stops: after the first run, or at 0 when
/// the whole text is one run.
pub open spec fn back_index(s: Seq<char>) -> nat {
    let r = run_from_start(s);
    if r < s.len() {
        r
    } else {
        0
    }
}

/// Where the scan from the end stops: before the last run, or at 0 when the
/// whole text is one run.
pub open spec fn front_index(s: Seq<char>) -> nat {
    let r = run_from_end(s);
    if r < s.len() {
        (s.len() - r) as nat
    } else {
        0
    }
}

/// The kind of the run the scan went over, if the text is not empty.
pub open spec fn ctrl_class(s: Seq<char>, is_front: bool) -> Option<TextDataType> {
    if s.len() == 0 {
        Option::None
    } else if is_front {
        Option::Some(char_class(s.last()))
    } else {
        Option::Some(char_class(s[0]))
    }
}

pub proof fn lemma_run_from_start(s: Seq<char>)
    requires
        s.len() > 0,
    ensures
        1 <= run_from_start(s) <= s.len(),
        forall|j: int| 0 <= j < run_from_start(s) ==> char_class(#[trigger] s[j]) == char_class(s[0]),
        run_from_start(s) < s.len() ==> char_class(s[run_from_start(s) as int]) != char_class(s[0]),
    decreases s.len(),
{
    if s.len() > 1 && char_class(s[1]) == char_class(s[0]) {
        let t = s.drop_first();
        lemma_run_from_start(t);
        assert forall|j: int| 0 <= j < run_from_start(s) implies char_class(#[trigger] s[j])
            == char_class(s[0]) by {
            if j > 0 {
                assert(s[j] == t[j - 1]);
            }
        }
        if run_from_start(s) < s.len() {
            assert(s[run_from_start(s) as int] == t[run_from_start(t) as int]);
        }
    }
}

pub proof fn lemma_run_from_end(s: Seq<char>)
    requires
        s.len() > 0,
    ensures
        1 <= run_from_end(s) <= s.len(),
        forall|j: int|
            0 <= j < run_from_end(s) ==> char_class(#[trigger] s[s.len() - 1 - j]) == char_class(
                s.last(),
            ),
        run_from_end(s) < s.len() ==> char_class(s[s.len() - 1 - run_from_end(s)]) != char_class(
            s.last(),
        ),
    decreases s.len(),
{
    if s.len() > 1 && char_class(s[s.len() - 2]) == char_class(s.last()) {
        let t = s.drop_last();
        lemma_run_from_end(t);
        assert forall|j: int| 0 <= j < run_from_end(s) implies char_class(
            #[trigger] s[s.len() - 1 - j],
        ) == char_class(s.last()) by {
            if j > 0 {
                assert(s[s.len() - 1 - j] == t[t.len() - 1 - (j - 1)]);
            }
        }
        if run_from_end(s) < s.len() {
            assert(s[s.len() - 1 - run_from_end(s)] == t[t.len() - 1 - run_from_end(t)]);
        }
    }
}

/// The position where a scan over one run of characters of the same kind
/// stops, from the end of `v` (`is_front`) or from its start.
fn ctrl_index(v: &Vec<char>, is_front: bool) -> (k: usize)
    ensures
        k == (if is_front {
            front_index(v@)
        } else {
            back_index(v@)
        }),
{
    let n = v.len();
    let ghost s = v@;
    if n > 0 {
        proof {
            lemma_run_from_start(s);
            lemma_run_from_end(s);
        }
    }
    let mut last: Option<TextDataType> = Option::None;
    let mut i: usize = 0;
    while i < n
        invariant
            n == v.len(),
            s == v@,
            n > 0 ==> 1 <= run_from_start(s) <= n && 1 <= run_from_end(s) <= n,
            n > 0 ==> forall|j: int| 0 <= j < run_from_start(s) ==> char_class(#[trigger] s[j]) == char_class(s[0]),
            n > 0 ==> (run_from_start(s) < n ==> char_class(s[run_from_start(s) as int]) != char_class(s[0])),
            n > 0 ==> forall|j: int| 0 <= j < run_from_end(s) ==> char_class(#[trigger] s[n - 1 - j]) == char_class(s.last()),
            n > 0 ==> (run_from_end(s) < n ==> char_class(s[n - 1 - run_from_end(s)]) != char_class(s.last())),
            i <= n,
            i == 0 ==> last is None,
            i > 0 ==> last == Option::Some(
                if is_front {
                    char_class(s.last())
                } else {
                    char_class(s[0])
                },
            ),
            !is_front ==> forall|j: int| 0 <= j < i ==> char_class(#[trigger] s[j]) == char_class(s[0]),
            is_front ==> forall|j: int| 0 <= j < i ==> char_class(#[trigger] s[n - 1 - j]) == char_class(s.last()),
        decreases n - i,
    {
        let c = if is_front {
            v[n - 1 - i]
        } else {
            v[i]
        };
        let now = classify(c);
        if let Option::Some(l) = last {
            if l != now {
                if is_front {
                    assert(run_from_end(s) == i) by {
                        if run_from_end(s) < i {
                            assert(char_class(s[n - 1 - run_from_end(s)]) == char_class(s.last()));
                        }
                        if run_from_end(s) > i {
                            assert(char_class(s[n - 1 - i]) == char_class(s.last()));
                        }
                    }
                    return n - i;
                } else {
                    assert(run_from_start(s) == i) by {
                        if run_from_start(s) < i {
                            assert(char_class(s[run_from_start(s) as int]) == char_class(s[0]));
                        }
                        if run_from_start(s) > i {
                            assert(char_class(s[i as int]) == char_class(s[0]));
                        }
                    }
                    return i;
                }
            }
        }
        last = Option::Some(now);
        i += 1;
    }
    proof {
        if n > 0 {
            if !is_front && run_from_start(s) < n {
                assert(char_class(s[run_from_start(s) as int]) == char_class(s[0]));
            }
            if is_front && run_from_end(s) < n {
                assert(char_class(s[n - 1 - run_from_end(s)]) == char_class(s.last()));
            }
        }
    }
    0
}

/// Scans one run of characters of the same kind, from the end of `text`
/// (`is_front`) or from its start, and splits `text` where the scan stopped.
/// Also returns the kind of the run, if `text` is not empty.
pub fn get_ctrl_list(text: String, is_front: bool) -> (r: (String, String, Option<TextDataType>))
    ensures
        ({
            let k = if is_front {
                front_index(text@)
            } else {
                back_index(text@)
            };
            &&& r.0@ == text@.take(k as int)
            &&& r.1@ == text@.skip(k as int)
            &&& r.2 == ctrl_class(text@, is_front)
        }),
{
    let v = chars_of(text.as_str());
    let k = ctrl_index(&v, is_front);
    proof {
        if v.len() > 0 {
            lemma_run_from_start(v@);
            lemma_run_from_end(v@);
        }
    }
    let a = sub_chars(&v, 0, k);
    let b = sub_chars(&v, k, v.len());
    let class = if v.len() == 0 {
        Option::None
    } else if is_front {
        Option::Some(classify(v[v.len() - 1]))
    } else {
        Option::Some(classify(v[0]))
    };
    (string_of(&a), string_of(&b), class)
}

/// Where Ctrl+Left (or Ctrl+Backspace) lands when the cursor is at the end
/// of `s`: before the last word, skipping the blanks behind it.
pub open spec fn front_ctrl_point(s: Seq<char>) -> nat
    decreases s.len(),
{
    if s.len() == 0 {
        0
    } else {
        let k = front_index(s);
        match char_class(s.last()) {
            TextDataType::Blank => {
                proof {
                    lemma_run_from_end(s);
                }
                front_ctrl_point(s.take(k as int))
            },
            TextDataType::Word => {
                if k == 0 {
                    0
                } else {
                    match char_class(s[k - 1]) {
                        TextDataType::Pause => front_index(s.take(k as int)),
                        _ => k,
                    }
                }
            },
            _ => k,
        }
    }
}

pub proof fn lemma_front_ctrl_point_bound(s: Seq<char>)
    ensures
        front_ctrl_point(s) <= s.len(),
    decreases s.len(),
{
    if s.len() > 0 {
        lemma_run_from_end(s);
        let k = front_index(s);
        if char_class(s.last()) == TextDataType::Blank {
            lemma_front_ctrl_point_bound(s.take(k as int));
        } else if char_class(s.last()) == TextDataType::Word && k > 0 {
            let p = s.take(k as int);
            lemma_run_from_end(p);
        }
    }
}

/// Splits `text` where Ctrl+Left lands from its end: the text before the
/// previous word and the rest.
pub fn get_front_ctrl(text: String) -> (r: [String; 2])
    ensures
        r[0]@ == text@.take(front_ctrl_point(text@) as int),
        r[1]@ == text@.skip(front_ctrl_point(text@) as int),
    decreases text@.len(),
{
    let ghost s = text@;
    proof {
        lemma_front_ctrl_point_bound(s);
        if s.len() > 0 {
            lemma_run_from_end(s);
        }
    }
    let list = get_ctrl_list(text.clone(), true);
    if list.2.is_none() {
        return [String::new(), text];
    }
    match list.2.unwrap() {
        TextDataType::Blank => {
            let front_list = get_front_ctrl(list.0.clone());
            proof {
                let k = front_index(s);
                let p = front_ctrl_point(s.take(k as int));
                lemma_front_ctrl_point_bound(s.take(k as int));
                assert(front_list[0]@ == s.take(p as int));
                assert(front_list[1]@ + list.1@ == s.skip(p as int));
            }
            [front_list[0].clone(), join2(front_list[1].as_str(), list.1.as_str())]
        },
        TextDataType::Word => {
            let front_list = get_ctrl_list(list.0.clone(), true);
            if front_list.2.is_none() {
                return [String::new(), text];
            }
            proof {
                let k = front_index(s);
                assert(list.0@.last() == s[k - 1]);
            }
            match front_list.2.unwrap() {
                TextDataType::Blank => [list.0, list.1],
                TextDataType::Pause => {
                    proof {
                        let k = front_index(s);
                        let p = s.take(k as int);
                        lemma_run_from_end(p);
                        let j = front_index(p);
                        assert(front_list.0@ == s.take(j as int));
                        assert(front_list.1@ + list.1@ == s.skip(j as int));
                    }
                    [front_list.0, join2(front_list.1.as_str(), list.1.as_str())]
                },
                _ => [list.0, list.1],
            }
        },
        _ => [list.0, list.1],
    }
}

/// Where Ctrl+Right lands when the cursor is at the start of `s`: after the
/// next word and the blanks that follow it.
pub open spec fn back_ctrl_point(s: Seq<char>) -> nat {
    if s.len() == 0 {
        0
    } else {
        let k = back_index(s);
        match char_class(s[0]) {
            TextDataType::Word => {
                let rest = s.skip(k as int);
                if rest.len() == 0 {
                    s.len()
                } else {
                    match char_class(rest[0]) {
                        TextDataType::Blank => k + back_index(rest),
                        TextDataType::Word => s.len(),
                        _ => k,
                    }
                }
            },
            _ => if k == 0 {
                s.len()
            } else {
                k
            },
        }
    }
}

/// Splits `text` where Ctrl+Right lands from its start: the text up to the
/// end of the next word and the rest.
pub fn get_back_ctrl(text: String) -> (r: [String; 2])
    ensures
        r[0]@ == text@.take(back_ctrl_point(text@) as int),
        r[1]@ == text@.skip(back_ctrl_point(text@) as int),
{
    let ghost s = text@;
    proof {
        if s.len() > 0 {
            lemma_run_from_start(s);
        }
    }
    let list = get_ctrl_list(text.clone(), false);
    if list.2.is_none() {
        return [text, String::new()];
    }
    match list.2.unwrap() {
        TextDataType::Word => {
            let back_list = get_ctrl_list(list.1.clone(), false);
            if back_list.2.is_none() {
                proof {
                    assert(s.take(s.len() as int) == s);
                }
                return [text, String::new()];
            }
            proof {
                let k = back_index(s);
                assert(list.1@[0] == s.skip(k as int)[0]);
            }
            match back_list.2.unwrap() {
                TextDataType::Blank => {
                    proof {
                        let k = back_index(s);
                        let rest = s.skip(k as int);
                        lemma_run_from_start(rest);
                        let j = back_index(rest);
                        assert(list.0@ + back_list.0@ == s.take((k + j) as int));
                        assert(back_list.1@ == s.skip((k + j) as int));
                    }
                    [join2(list.0.as_str(), back_list.0.as_str()), back_list.1]
                },
                TextDataType::Word => {
                    proof {
                        assert(s.take(s.len() as int) == s);
                    }
                    [text, String::new()]
                },
                _ => [list.0, list.1],
            }
        },
        _ => {
            if list.0.as_str().is_empty() {
                proof {
                    assert(s.take(s.len() as int) == s);
                }
                return [text, String::new()];
            }
            [list.0, list.1]
        },
    }
}

/// The position just after the last line break of `s`, or 0 if it has none.
pub open spec fn after_last_nl(s: Seq<char>) -> nat
    decreases s.len(),
{
    if s.len() == 0 {
        0
    } else if s.last() == '\n' {
        s.len()
    } else {
        after_last_nl(s.drop_last())
    }
}

/// The position of the first line break of `s`, or its length if it has
/// none.
pub open spec fn first_nl(s: Seq<char>) -> nat
    decreases s.len(),
{
    if s.len() == 0 {
        0
    } else if s[0] == '\n' {
        0
    } else {
        1 + first_nl(s.drop_first())
    }
}

pub proof fn lemma_after_last_nl(s: Seq<char>)
    ensures
        after_last_nl(s) <= s.len(),
        after_last_nl(s) > 0 ==> s[after_last_nl(s) - 1] == '\n',
        forall|j: int| after_last_nl(s) <= j < s.len() ==> s[j] != '\n',
    decreases s.len(),
{
    if s.len() > 0 && s.last() != '\n' {
        let t = s.drop_last();
        lemma_after_last_nl(t);
        assert forall|j: int| after_last_nl(s) <= j < s.len() implies s[j] != '\n' by {
            if j < s.len() - 1 {
                assert(s[j] == t[j]);
            }
        }
    }
}

pub proof fn lemma_first_nl(s: Seq<char>)
    ensures
        first_nl(s) <= s.len(),
        first_nl(s) < s.len() ==> s[first_nl(s) as int] == '\n',
        forall|j: int| 0 <= j < first_nl(s) ==> s[j] != '\n',
    decreases s.len(),
{
    if s.len() > 0 && s[0] != '\n' {
        let t = s.drop_first();
        lemma_first_nl(t);
        assert forall|j: int| 0 <= j < first_nl(s) implies s[j] != '\n' by {
            if j > 0 {
                assert(s[j] == t[j - 1]);
            }
        }
    }
}

/// The position just after the last line break of `v`, or 0.
pub fn find_after_last_nl(v: &Vec<char>) -> (k: usize)
    ensures
        k == after_last_nl(v@),
{
    let mut i = v.len();
    assert(v@.take(i as int) == v@);
    while i > 0
        invariant
            i <= v.len(),
            after_last_nl(v@) == after_last_nl(v@.take(i as int)),
        decreases i,
    {
        if v[i - 1] == '\n' {
            return i;
        }
        assert(v@.take(i as int).drop_last() == v@.take(i - 1));
        i -= 1;
    }
    0
}

/// The position of the first line break of `v`, or its length.
pub fn find_first_nl(v: &Vec<char>) -> (k: usize)
    ensures
        k == first_nl(v@),
{
    let mut i: usize = 0;
    assert(v@.skip(0) == v@);
    while i < v.len()
        invariant
            i <= v.len(),
            first_nl(v@) == i + first_nl(v@.skip(i as int)),
        decreases v.len() - i,
    {
        if v[i] == '\n' {
            return i;
        }
        assert(v@.skip(i as int).drop_first() == v@.skip(i + 1));
        i += 1;
    }
    i
}

/// Where Ctrl+Up lands when the cursor is at the end of `s`: before a line
/// break that ends `s`, or else at the start of its last line.
pub open spec fn up_ctrl_point(s: Seq<char>) -> nat {
    if s.len() == 0 {
        0
    } else if s.last() == '\n' {
        (s.len() - 1) as nat
    } else {
        after_last_nl(s)
    }
}

/// Splits `text` where Ctrl+Up lands from its end.
pub fn get_up_ctrl(text: String) -> (r: [String; 2])
    ensures
        r[0]@ == text@.take(up_ctrl_point(text@) as int),
        r[1]@ == text@.skip(up_ctrl_point(text@) as int),
{
    let v = chars_of(text.as_str());
    proof {
        lemma_after_last_nl(v@);
    }
    if v.len() == 0 {
        return [String::new(), text];
    }
    if v[v.len() - 1] == '\n' {
        let a = sub_chars(&v, 0, v.len() - 1);
        let b = sub_chars(&v, v.len() - 1, v.len());
        return [string_of(&a), string_of(&b)];
    }
    let k = find_after_last_nl(&v);
    let a = sub_chars(&v, 0, k);
    let b = sub_chars(&v, k, v.len());
    [string_of(&a), string_of(&b)]
}

/// What Ctrl+Down splits off the start of `s`: a leading line break alone,
/// or the first line, with the rest starting at its line break. When that
/// line break is the last character of `s`, it is dropped.
pub open spec fn down_ctrl_parts(s: Seq<char>) -> (Seq<char>, Seq<char>) {
    if s.len() == 0 {
        (s, s)
    } else if s[0] == '\n' {
        (seq!['\n'], s.drop_first())
    } else {
        let p = first_nl(s);
        if p == s.len() {
            (s, Seq::empty())
        } else if p + 1 == s.len() {
            (s.take(p as int), Seq::empty())
        } else {
            (s.take(p as int), s.skip(p as int))
        }
    }
}

/// Splits the first line off `text` for Ctrl+Down.
pub fn get_down_ctrl(text: String) -> (r: [String; 2])
    ensures
        r[0]@ == down_ctrl_parts(text@).0,
        r[1]@ == down_ctrl_parts(text@).1,
{
    let v = chars_of(text.as_str());
    proof {
        lemma_first_nl(v@);
    }
    if v.len() == 0 {
        return [text, String::new()];
    }
    if v[0] == '\n' {
        let a = sub_chars(&v, 0, 1);
        let b = sub_chars(&v, 1, v.len());
        proof {
            assert(a@ == seq!['\n']);
            assert(b@ == v@.drop_first());
        }
        return [string_of(&a), string_of(&b)];
    }
    let p = find_first_nl(&v);
    if p == v.len() {
        proof {
            assert(text@ == v@);
        }
        return [text, String::new()];
    }
    let a = sub_chars(&v, 0, p);
    if p + 1 == v.len() {
        return [string_of(&a), String::new()];
    }
    let b = sub_chars(&v, p, v.len());
    [string_of(&a), string_of(&b)]
}

/// Ctrl+Left, Ctrl+Right and Ctrl+Up never lose or add text: the two parts
/// put back together are the text that was split.
pub proof fn law_ctrl_splits_keep_text(s: Seq<char>)
    ensures
        s.take(front_ctrl_point(s) as int) + s.skip(front_ctrl_point(s) as int) == s,
        s.take(back_ctrl_point(s) as int) + s.skip(back_ctrl_point(s) as int) == s,
        s.take(up_ctrl_point(s) as int) + s.skip(up_ctrl_point(s) as int) == s,
{
    lemma_front_ctrl_point_bound(s);
    lemma_back_ctrl_point_bound(s);
    lemma_after_last_nl(s);
    lemma_take_skip(s, front_ctrl_point(s) as int);
    lemma_take_skip(s, back_ctrl_point(s) as int);
    lemma_take_skip(s, up_ctrl_point(s) as int);
}

/// Cutting a sequence at a position and putting it back together gives it
/// back.
pub proof fn lemma_take_skip(s: Seq<char>, p: int)
    requires
        0 <= p <= s.len(),
    ensures
        s.take(p) + s.skip(p) == s,
{
    assert(s.take(p) + s.skip(p) =~= s);
}

pub proof fn lemma_back_ctrl_point_bound(s: Seq<char>)
    ensures
        back_ctrl_point(s) <= s.len(),
{
    if s.len() > 0 {
        lemma_run_from_start(s);
        let k = back_index(s);
        let rest = s.skip(k as int);
        if rest.len() > 0 {
            lemma_run_from_start(rest);
        }
    }
}

/// Ctrl+Down keeps the text too, except when the only line break of the
/// text is its last character after a first line that is not empty: that
/// line break is dropped.
pub proof fn law_down_ctrl_keeps_text(s: Seq<char>)
    requires
        !(s.len() > 1 && s.last() == '\n' && first_nl(s) == s.len() - 1),
    ensures
        down_ctrl_parts(s).0 + down_ctrl_parts(s).1 == s,
{
    lemma_first_nl(s);
    if s.len() > 0 && s[0] == '\n' {
        assert(seq!['\n'] + s.drop_first() =~= s);
    } else {
        assert(down_ctrl_parts(s).0 + down_ctrl_parts(s).1 =~= s);
    }
}

/// Ctrl+Up from the end of a text goes to the start of its last line: the
/// split comes just after the last line break (or at the start when there
/// is none), so the second part holds no line break. When the text ends
/// with a line break, the split comes just before it.
pub proof fn law_up_ctrl_splits_at_last_line(s: Seq<char>)
    requires
        s.len() > 0,
    ensures
        ({
            let p = up_ctrl_point(s) as int;
            &&& 0 <= p <= s.len()
            &&& s.last() == '\n' ==> p == s.len() - 1
            &&& s.last() != '\n' ==> (p == 0 || s[p - 1] == '\n')
            &&& s.last() != '\n' ==> forall|j: int| p <= j < s.len() ==> s[j] != '\n'
        }),
{
    lemma_after_last_nl(s);
}

/// A blank is exactly the space character.
proof fn lemma_blank_is_space(c: char)
    ensures
        (char_class(c) == TextDataType::Blank) == (c == ' '),
{
}

/// The run at the start of `s` ends exactly at `i` when every character
/// before `i` has the kind of the first one and the character at `i` has
/// another kind.
proof fn lemma_run_from_start_is(s: Seq<char>, i: int)
    requires
        0 < i < s.len(),
        forall|t: int| 0 <= t < i ==> char_class(#[trigger] s[t]) == char_class(s[0]),
        char_class(s[i]) != char_class(s[0]),
    ensures
        run_from_start(s) == i,
        back_index(s) == i,
{
    lemma_run_from_start(s);
    let r = run_from_start(s) as int;
    if r < i {
        assert(char_class(s[r]) == char_class(s[0]));
    }
    if r > i {
        assert(char_class(s[i]) == char_class(s[0]));
    }
}

/// Ctrl+Right from the start of a word that is followed by blanks and then
/// by something else lands after the whole run of blanks: the first part is
/// the word and every blank after it, and the second part starts with the
/// next character that is not a blank.
pub proof fn law_ctrl_right_skips_blanks(s: Seq<char>, i: int, j: int)
    requires
        0 < i < j < s.len(),
        forall|t: int| 0 <= t < i ==> char_class(#[trigger] s[t]) == TextDataType::Word,
        forall|t: int| i <= t < j ==> #[trigger] s[t] == ' ',
        s[j] != ' ',
    ensures
        back_ctrl_point(s) == j,
        s.skip(back_ctrl_point(s) as int)[0] != ' ',
{
    assert(char_class(s[0]) == TextDataType::Word);
    assert(s[i] == ' ');
    lemma_run_from_start_is(s, i);
    let rest = s.skip(i);
    assert(rest[0] == ' ');
    assert forall|t: int| 0 <= t < j - i implies char_class(#[trigger] rest[t]) == char_class(rest[0]) by {
        assert(rest[t] == s[i + t]);
    }
    assert(rest[j - i] == s[j]);
    lemma_blank_is_space(s[j]);
    lemma_run_from_start_is(rest, j - i);
    assert(s.skip(j)[0] == s[j]);
}

/// Ctrl+Down from the start of a text takes its first line: a leading line
/// break alone, or else the text up to its first line break, which holds
/// no line break; what is left starts at that line break (or is empty).
pub proof fn law_down_ctrl_takes_first_line(s: Seq<char>)
    requires
        s.len() > 0,
    ensures
        ({
            let d = down_ctrl_parts(s);
            &&& s[0] == '\n' ==> d.0 == seq!['\n'] && d.1 == s.drop_first()
            &&& s[0] != '\n' ==> d.0.len() > 0 && s.take(d.0.len() as int) == d.0
            &&& s[0] != '\n' ==> forall|j: int| 0 <= j < d.0.len() ==> d.0[j] != '\n'
            &&& s[0] != '\n' ==> d.0.len() == s.len() || s[d.0.len() as int] == '\n'
            &&& s[0] != '\n' ==> d.1.len() == 0 || d.1[0] == '\n'
        }),
{
    lemma_first_nl(s);
    let p = first_nl(s) as int;
    if s[0] != '\n' {
        if p == s.len() {
            assert(s.take(s.len() as int) =~= s);
        } else {
            assert(s.skip(p)[0] == s[p]);
        }
    }
}

/// The run at the end of `s` starts exactly at `i` when every character from
/// `i` on has the kind of the last one and the character before `i` (if
/// any) has another kind.
proof fn lemma_run_from_end_is(s: Seq<char>, i: int)
    requires
        0 <= i < s.len(),
        forall|t: int| i <= t < s.len() ==> char_class(#[trigger] s[t]) == char_class(s.last()),
        i > 0 ==> char_class(s[i - 1]) != char_class(s.last()),
    ensures
        run_from_end(s) == s.len() - i,
        front_index(s) == i,
{
    lemma_run_from_end(s);
    let r = run_from_end(s) as int;
    if r < s.len() - i {
        assert(char_class(s[s.len() - 1 - r]) == char_class(s.last()));
    }
    if r > s.len() - i {
        let j = s.len() - 1 - (s.len() - i);
        assert(j == i - 1);
        assert(char_class(s[s.len() - 1 - j]) == char_class(s.last()));
    }
}

/// Ctrl+Left from the end of a text that ends with a word, perhaps followed
/// by blanks, lands at the start of that word: the second part is the word
/// and the blanks after it.
pub proof fn law_ctrl_left_lands_at_word_start(s: Seq<char>, i: int, j: int)
    requires
        0 <= i < j <= s.len(),
        forall|t: int| i <= t < j ==> char_class(#[trigger] s[t]) == TextDataType::Word,
        forall|t: int| j <= t < s.len() ==> #[trigger] s[t] == ' ',
        i > 0 ==> char_class(s[i - 1]) != TextDataType::Word,
    ensures
        front_ctrl_point(s) == i,
{
    let w = s.take(j);
    assert(w.last() == s[j - 1]);
    assert forall|t: int| i <= t < w.len() implies char_class(#[trigger] w[t]) == char_class(w.last()) by {
        assert(w[t] == s[t]);
    }
    if i > 0 {
        assert(w[i - 1] == s[i - 1]);
    }
    lemma_run_from_end_is(w, i);
    if i > 0 {
        assert(char_class(w[i - 1]) != TextDataType::Pause);
    }
    assert(front_ctrl_point(w) == i);
    if j < s.len() {
        assert(s.last() == ' ');
        assert forall|t: int| j <= t < s.len() implies char_class(#[trigger] s[t]) == char_class(s.last()) by {
            assert(s[t] == ' ');
        }
        lemma_blank_is_space(s[j - 1]);
        lemma_run_from_end_is(s, j);
        assert(s.take(front_index(s) as int) == w);
    } else {
        assert(w =~= s);
    }
}

/// The run at the start of `s` covers all of `s` when every character has
/// the kind of the first one.
proof fn lemma_run_from_start_all(s: Seq<char>)
    requires
        s.len() > 0,
        forall|t: int| 0 <= t < s.len() ==> char_class(#[trigger] s[t]) == char_class(s[0]),
    ensures
        run_from_start(s) == s.len(),
        back_index(s) == 0,
{
    lemma_run_from_start(s);
    let r = run_from_start(s) as int;
    if r < s.len() {
        assert(char_class(s[r]) == char_class(s[0]));
    }
}

/// Ctrl+Right from the start of a text goes over the first run of
/// characters of one kind (`i` characters long): it lands at the end of
/// that run when the run is not a word, or when it is a word followed by
/// something other than a blank; a run that fills the whole text takes it
/// all.
pub proof fn law_ctrl_right_ends_first_run(s: Seq<char>, i: int)
    requires
        0 < i <= s.len(),
        forall|t: int| 0 <= t < i ==> char_class(#[trigger] s[t]) == char_class(s[0]),
        i < s.len() ==> char_class(s[i]) != char_class(s[0]),
        char_class(s[0]) == TextDataType::Word && i < s.len() ==> s[i] != ' ',
    ensures
        back_ctrl_point(s) == i,
{
    if i < s.len() {
        lemma_run_from_start_is(s, i);
        lemma_blank_is_space(s[i]);
        assert(s.skip(i)[0] == s[i]);
    } else {
        lemma_run_from_start_all(s);
    }
}

/// Ctrl+Left from the end of a text that ends with a run of punctuation,
/// tabs or line breaks lands at the start of that run.
pub proof fn law_ctrl_left_ends_last_run(s: Seq<char>, i: int)
    requires
        0 <= i < s.len(),
        char_class(s.last()) != TextDataType::Word,
        char_class(s.last()) != TextDataType::Blank,
        forall|t: int| i <= t < s.len() ==> char_class(#[trigger] s[t]) == char_class(s.last()),
        i > 0 ==> char_class(s[i - 1]) != char_class(s.last()),
    ensures
        front_ctrl_point(s) == i,
{
    lemma_run_from_end_is(s, i);
}

} // verus!
