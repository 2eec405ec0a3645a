use vstd::prelude::*;
use vstd::string::*;

use crate::text_field::Select;

verus! {

/// Appends one character to a string: std's `String::push`, which the
/// standard library documents as appending the given char to the end.
#[verifier::external_body]
pub(crate) fn push_char(s: &mut String, c: char)
    ensures
        final(s)@ == old(s)@.push(c),
{
    s.push(c);
}

/// The characters of a string, in order.
pub fn chars_of(s: &str) -> (v: Vec<char>)
    ensures
        v@ == s@,
{
    let n = s.unicode_len();
    let mut v: Vec<char> = Vec::new();
    let mut i: usize = 0;
    while i < n
        invariant
            n == s@.len(),
            i <= n,
            v@ == s@.take(i as int),
        decreases n - i,
    {
        let c = s.get_char(i);
        v.push(c);
        i += 1;
        assert(v@ == s@.take(i as int));
    }
    assert(s@.take(n as int) == s@);
    v
}

/// The string made of the given characters, in order.
pub fn string_of(v: &Vec<char>) -> (s: String)
    ensures
        s@ == v@,
{
    let mut s = String::new();
    let mut i: usize = 0;
    while i < v.len()
        invariant
            i <= v.len(),
            s@ == v@.take(i as int),
        decreases v.len() - i,
    {
        push_char(&mut s, v[i]);
        i += 1;
        assert(s@ == v@.take(i as int));
    }
    assert(v@.take(v.len() as int) == v@);
    s
}

/// The string made of the characters of `a` followed by those of `b`.
pub fn concat_chars(a: &Vec<char>, b: &Vec<char>) -> (r: Vec<char>)
    ensures
        r@ == a@ + b@,
{
    let mut r = a.clone();
    let mut i: usize = 0;
    while i < b.len()
        invariant
            i <= b.len(),
            r@ == a@ + b@.take(i as int),
        decreases b.len() - i,
    {
        r.push(b[i]);
        i += 1;
        assert(r@ == a@ + b@.take(i as int));
    }
    assert(b@.take(b.len() as int) == b@);
    r
}

/// The characters of `v` from position `from` up to (not including) `to`.
pub fn sub_chars(v: &Vec<char>, from: usize, to: usize) -> (r: Vec<char>)
    requires
        from <= to <= v.len(),
    ensures
        r@ == v@.subrange(from as int, to as int),
{
    let mut r: Vec<char> = Vec::new();
    let mut i: usize = from;
    while i < to
        invariant
            from <= i <= to <= v.len(),
            r@ == v@.subrange(from as int, i as int),
        decreases to - i,
    {
        r.push(v[i]);
        i += 1;
        assert(r@ == v@.subrange(from as int, i as int));
    }
    r
}

/// The characters of `a` followed by those of `b`, as a new string.
pub fn join2(a: &str, b: &str) -> (r: String)
    ensures
        r@ == a@ + b@,
{
    let mut r = a.to_owned();
    r.append(b);
    r
}

/// The three parts of a text field put together.
pub fn concat3(text_list: &[String; 3]) -> (r: String)
    ensures
        r@ == text_list[0]@ + text_list[1]@ + text_list[2]@,
{
    let a = join2(text_list[0].as_str(), text_list[1].as_str());
    join2(a.as_str(), text_list[2].as_str())
}

/// Removes and returns the last character, if any.
pub fn pop_char(s: &mut String) -> (r: Option<char>)
    ensures
        old(s)@.len() == 0 ==> r is None && final(s)@ == old(s)@,
        old(s)@.len() > 0 ==> r == Some(old(s)@.last()) && final(s)@ == old(s)@.drop_last(),
{
    let mut v = chars_of(s.as_str());
    match v.pop() {
        Some(c) => {
            *s = string_of(&v);
            Some(c)
        },
        None => None,
    }
}

/// The string holding just `c`.
pub fn char_string(c: char) -> (r: String)
    ensures
        r@ == seq![c],
{
    let mut r = String::new();
    push_char(&mut r, c);
    r
}

/// The three parts of a text field, put together.
pub open spec fn cat3(t: [String; 3]) -> Seq<char> {
    t[0]@ + t[1]@ + t[2]@
}

/// A character position clamped to the length of `s`.
pub open spec fn clamp(s: Seq<char>, i: int) -> int {
    if i < s.len() {
        i
    } else {
        s.len() as int
    }
}

/// Splits `text` into the text before the selection, the selected text and
/// the text after it; positions past the end count as the end.
pub fn split_text(text: String, split: Select) -> (r: [String; 3])
    requires
        split.0 <= split.1,
    ensures
        r[0]@ == text@.take(clamp(text@, split.0 as int)),
        r[1]@ == text@.subrange(clamp(text@, split.0 as int), clamp(text@, split.1 as int)),
        r[2]@ == text@.skip(clamp(text@, split.1 as int)),
{
    let front = text.split_chars_at(split.0);
    let other = front[1].split_chars_at(split.1 - split.0);
    proof {
        let t = text@;
        let a = clamp(t, split.0 as int);
        let b = clamp(t, split.1 as int);
        assert(front[1]@ == t.skip(a));
        assert(other[0]@ == t.subrange(a, b));
        assert(other[1]@ == t.skip(b));
    }
    [front[0].clone(), other[0].clone(), other[1].clone()]
}

/// The three parts that `split_text` gives, put back together, are the
/// text.
pub proof fn law_split_text_keeps_text(t: Seq<char>, a: int, b: int)
    requires
        0 <= a <= b,
    ensures
        t.take(clamp(t, a)) + t.subrange(clamp(t, a), clamp(t, b)) + t.skip(clamp(t, b)) == t,
{
    assert(t.take(clamp(t, a)) + t.subrange(clamp(t, a), clamp(t, b)) + t.skip(clamp(t, b)) =~= t);
}

/// The two parts that `split_chars_at` gives, put back together, are the
/// string; and a removed first character put back in front gives the
/// string again.
pub proof fn law_split_chars_keeps_text(s: Seq<char>, i: int)
    requires
        0 <= i,
    ensures
        s.take(clamp(s, i)) + s.skip(clamp(s, i)) == s,
        s.len() > 0 ==> seq![s[0]] + s.drop_first() == s,
{
    assert(s.take(clamp(s, i)) + s.skip(clamp(s, i)) =~= s);
    if s.len() > 0 {
        assert(seq![s[0]] + s.drop_first() =~= s);
    }
}

/// Character-based operations on strings (positions count characters, not
/// bytes).
pub trait ToolString: Sized {
    /// The characters of the string.
    spec fn char_seq(&self) -> Seq<char>;

    /// Splits the string before the character at `index` (at the end when
    /// `index` is past it).
    fn split_chars_at(&self, index: usize) -> (r: [String; 2])
        ensures
            r[0]@ == self.char_seq().take(clamp(self.char_seq(), index as int)),
            r[1]@ == self.char_seq().skip(clamp(self.char_seq(), index as int)),
    ;

    /// Removes and returns the first character, if any.
    fn front_pop(&mut self) -> (r: Option<char>)
        ensures
            old(self).char_seq().len() == 0 ==> r is None && final(self).char_seq() == old(
                self,
            ).char_seq(),
            old(self).char_seq().len() > 0 ==> r == Some(old(self).char_seq()[0])
                && final(self).char_seq() == old(self).char_seq().drop_first(),
    ;

    /// The number of characters.
    fn size(&self) -> (r: usize)
        ensures
            r == self.char_seq().len(),
    ;

    /// The first `num` characters, or the whole string when it is shorter.
    fn slice(&self, num: usize) -> (r: String)
        ensures
            r@ == (if num > self.char_seq().len() {
                self.char_seq()
            } else {
                self.char_seq().take(num as int)
            }),
    ;
}

impl ToolString for String {
    open spec fn char_seq(&self) -> Seq<char> {
        self@
    }

    fn split_chars_at(&self, index: usize) -> (r: [String; 2]) {
        let v = chars_of(self.as_str());
        let k = if index < v.len() {
            index
        } else {
            v.len()
        };
        let a = sub_chars(&v, 0, k);
        let b = sub_chars(&v, k, v.len());
        [string_of(&a), string_of(&b)]
    }

    fn front_pop(&mut self) -> (r: Option<char>) {
        let mut v = chars_of(self.as_str());
        if v.len() == 0 {
            return None;
        }
        let first = v.remove(0);
        *self = string_of(&v);
        Some(first)
    }

    fn size(&self) -> (r: usize) {
        self.as_str().unicode_len()
    }

    fn slice(&self, num: usize) -> (r: String) {
        let v = chars_of(self.as_str());
        if num > v.len() {
            return self.clone();
        }
        let a = sub_chars(&v, 0, num);
        string_of(&a)
    }
}

} // verus!
