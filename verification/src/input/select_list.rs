//! Moving the cursor by lines, and moving text between the three parts of
//! a field as the selection moves.
use vstd::prelude::*;

use super::control::{
    first_nl, get_back_ctrl, get_down_ctrl, get_front_ctrl, get_up_ctrl, lemma_first_nl,
    find_first_nl, down_ctrl_parts, front_ctrl_point, back_ctrl_point, up_ctrl_point,
};
use crate::text_field::TextField;
use crate::tool::{cat3, chars_of, clamp, concat3, join2, pop_char, char_string, sub_chars, ToolString};

verus! {

/// The lengths, in characters, of the lines of `s` as `str::lines` yields
/// them: lines end at a line break, a carriage return just before a line
/// break is not part of its line, and a line break at the very end does not
/// start a further line.
pub open spec fn line_sizes(s: Seq<char>) -> Seq<int>
    decreases s.len(),
{
    if s.len() == 0 {
        Seq::empty()
    } else {
        let k = first_nl(s);
        if k >= s.len() {
            seq![s.len() as int]
        } else {
            let size = if k > 0 && s[k - 1] == '\r' {
                k - 1
            } else {
                k as int
            };
            seq![size] + line_sizes(s.skip(k + 1int))
        }
    }
}

/// Where line `j` starts when the lines have the given lengths and are
/// separated by one character each.
pub open spec fn line_start(sizes: Seq<int>, j: int) -> int
    decreases j,
{
    if j <= 0 {
        0
    } else {
        line_start(sizes, j - 1) + sizes[j - 1] + 1
    }
}

/// Where line `j` ends.
pub open spec fn line_end(sizes: Seq<int>, j: int) -> int {
    line_start(sizes, j) + sizes[j]
}

/// The first line, from line `j` on, that `select` does not lie beyond; the
/// number of lines if there is none.
pub open spec fn reach_from(sizes: Seq<int>, select: int, j: int) -> int
    decreases sizes.len() - j,
{
    if j < 0 || j >= sizes.len() {
        sizes.len() as int
    } else if select <= line_end(sizes, j) {
        j
    } else {
        reach_from(sizes, select, j + 1)
    }
}

/// The line that holds position `select`.
pub open spec fn reach_line(sizes: Seq<int>, select: int) -> int {
    reach_from(sizes, select, 0)
}

/// Where the cursor at `select` goes on Up: to the same column of the line
/// above, or to its end when that line is shorter. It stays when it is on
/// the first line, past the last line, or when the line above is an empty
/// first line.
pub open spec fn up_target(text: Seq<char>, select: int) -> int {
    let sz = line_sizes(text);
    let l = reach_line(sz, select);
    if l >= sz.len() || l == 0 {
        select
    } else {
        let ps = line_start(sz, l - 1);
        let pe = line_end(sz, l - 1);
        if ps == 0 && pe == 0 {
            select
        } else if ps + (select - line_start(sz, l)) <= pe {
            ps + (select - line_start(sz, l))
        } else {
            pe
        }
    }
}

/// Where the cursor at `select` goes on Down: to the same column of the line
/// below, or to its end when that line is shorter; to the end of the text
/// when there is no line below.
pub open spec fn down_target(text: Seq<char>, select: int) -> int {
    let sz = line_sizes(text);
    let l = reach_line(sz, select);
    if l + 1 < sz.len() {
        let ns = line_start(sz, l + 1);
        if ns + (select - line_start(sz, l)) <= line_end(sz, l + 1) {
            ns + (select - line_start(sz, l))
        } else {
            line_end(sz, l + 1)
        }
    } else {
        text.len() as int
    }
}

proof fn lemma_line_start_cons(a: int, t: Seq<int>, j: int)
    requires
        1 <= j <= t.len() + 1,
    ensures
        line_start(seq![a] + t, j) == a + 1 + line_start(t, j - 1),
    decreases j,
{
    let l = seq![a] + t;
    assert(l[0] == a);
    assert(line_start(l, j) == line_start(l, j - 1) + l[j - 1] + 1);
    if j > 1 {
        lemma_line_start_cons(a, t, j - 1);
        assert(l[j - 1] == t[j - 2]);
        assert(line_start(t, j - 1) == line_start(t, j - 2) + t[j - 2] + 1);
    } else {
        assert(line_start(l, 0) == 0);
        assert(line_start(t, 0) == 0);
    }
}

/// Every line lies inside the text.
proof fn lemma_line_bounds(s: Seq<char>)
    ensures
        forall|j: int|
            0 <= j < line_sizes(s).len() ==> 0 <= #[trigger] line_sizes(s)[j] && line_end(
                line_sizes(s),
                j,
            ) <= s.len(),
    decreases s.len(),
{
    lemma_first_nl(s);
    if s.len() > 0 {
        let k = first_nl(s);
        if k < s.len() {
            let rest = s.skip(k + 1int);
            lemma_line_bounds(rest);
            let t = line_sizes(rest);
            let size = if k > 0 && s[k - 1] == '\r' {
                k - 1
            } else {
                k as int
            };
            let sz = line_sizes(s);
            assert(sz == seq![size] + t);
            assert forall|j: int| 0 <= j < sz.len() implies 0 <= #[trigger] sz[j] && line_end(
                sz,
                j,
            ) <= s.len() by {
                if j > 0 {
                    lemma_line_start_cons(size, t, j);
                    assert(sz[j] == t[j - 1]);
                }
            }
        }
    }
}

/// The line that holds a position comes after every line that ends before
/// it.
proof fn lemma_reach_from(sizes: Seq<int>, select: int, j: int)
    requires
        0 <= j <= sizes.len(),
    ensures
        j <= reach_from(sizes, select, j) <= sizes.len(),
        forall|i: int| j <= i < reach_from(sizes, select, j) ==> select > #[trigger] line_end(sizes, i),
        reach_from(sizes, select, j) < sizes.len() ==> select <= line_end(sizes, reach_from(sizes, select, j)),
    decreases sizes.len() - j,
{
    if j < sizes.len() && select > line_end(sizes, j) {
        lemma_reach_from(sizes, select, j + 1);
    }
}

proof fn lemma_line_start_nonneg(sizes: Seq<int>, j: int)
    requires
        j <= sizes.len(),
        forall|i: int| 0 <= i < sizes.len() ==> 0 <= #[trigger] sizes[i],
    ensures
        line_start(sizes, j) >= 0,
        j >= 1 ==> line_start(sizes, j) == line_end(sizes, j - 1) + 1,
    decreases j,
{
    if j > 0 {
        lemma_line_start_nonneg(sizes, j - 1);
    }
}

/// The Up and Down targets of a position are positions: never negative.
pub proof fn lemma_targets_nonneg(text: Seq<char>, select: int)
    requires
        select >= 0,
    ensures
        up_target(text, select) >= 0,
        down_target(text, select) >= 0,
{
    let sz = line_sizes(text);
    lemma_line_bounds(text);
    lemma_reach_from(sz, select, 0);
    let l = reach_line(sz, select);
    if 0 < l < sz.len() {
        lemma_line_start_nonneg(sz, l - 1);
        lemma_line_start_nonneg(sz, l);
        assert(select > line_end(sz, l - 1));
    }
    if 0 <= l && l + 1 < sz.len() {
        lemma_line_start_nonneg(sz, l);
        lemma_line_start_nonneg(sz, l + 1);
        if l > 0 {
            assert(select > line_end(sz, l - 1));
        }
    }
}

/// Up moves the cursor onto the line above, unless that line is an empty
/// first line: when the cursor lies on line `l >= 1`, and line `l - 1` is
/// not both the first line and empty, the Up target lies on line `l - 1`,
/// at the cursor's column or at the end of that line when it is shorter,
/// and so strictly before the cursor.
pub proof fn law_up_moves_to_line_above(text: Seq<char>, select: int)
    requires
        0 <= select,
        ({
            let sz = line_sizes(text);
            let l = reach_line(sz, select);
            1 <= l < sz.len() && (l >= 2 || sz[0] > 0)
        }),
    ensures
        ({
            let sz = line_sizes(text);
            let l = reach_line(sz, select);
            let t = up_target(text, select);
            let col = select - line_start(sz, l);
            &&& 0 <= col
            &&& line_start(sz, l - 1) <= t <= line_end(sz, l - 1)
            &&& t == line_start(sz, l - 1) + (if col < sz[l - 1] {
                col
            } else {
                sz[l - 1]
            })
            &&& t < select
        }),
{
    let sz = line_sizes(text);
    lemma_line_bounds(text);
    lemma_reach_from(sz, select, 0);
    let l = reach_line(sz, select);
    lemma_line_start_nonneg(sz, l - 1);
    lemma_line_start_nonneg(sz, l);
    assert(select > line_end(sz, l - 1));
    if l >= 2 {
        lemma_line_start_nonneg(sz, l - 2);
        assert(line_start(sz, l - 1) >= 1);
    } else {
        assert(line_end(sz, 0) == sz[0]);
    }
}

/// Up keeps the cursor where it is when there is no line above to move to:
/// on the first line, past the last line, and below an empty first line.
pub proof fn law_up_stays_without_line_above(text: Seq<char>, select: int)
    requires
        0 <= select,
        ({
            let sz = line_sizes(text);
            let l = reach_line(sz, select);
            l == 0 || l >= sz.len() || (l == 1 && sz[0] == 0)
        }),
    ensures
        up_target(text, select) == select,
{
}

/// Down moves the cursor onto the line below, at the cursor's column or at
/// the end of that line when it is shorter, and so strictly after the
/// cursor; on the last line it moves to the end of the text.
pub proof fn law_down_moves_to_line_below(text: Seq<char>, select: int)
    requires
        0 <= select,
        reach_line(line_sizes(text), select) < line_sizes(text).len(),
    ensures
        ({
            let sz = line_sizes(text);
            let l = reach_line(sz, select);
            let t = down_target(text, select);
            let col = select - line_start(sz, l);
            &&& 0 <= col
            &&& l + 1 < sz.len() ==> line_start(sz, l + 1) <= t <= line_end(sz, l + 1)
            &&& l + 1 < sz.len() ==> t == line_start(sz, l + 1) + (if col < sz[l + 1] {
                col
            } else {
                sz[l + 1]
            })
            &&& l + 1 < sz.len() ==> select < t
            &&& l + 1 == sz.len() ==> t == text.len()
        }),
{
    let sz = line_sizes(text);
    lemma_line_bounds(text);
    lemma_reach_from(sz, select, 0);
    let l = reach_line(sz, select);
    lemma_line_start_nonneg(sz, l);
    if l >= 1 {
        assert(select > line_end(sz, l - 1));
    }
    if l + 1 < sz.len() {
        lemma_line_start_nonneg(sz, l + 1);
    }
}

/// Without carriage returns, the first line of a text with a line break at
/// `k` (its first) is `k` long, and the other lines are those of the text
/// after that line break.
proof fn lemma_lines_cons(s: Seq<char>)
    requires
        s.len() > 0,
        first_nl(s) < s.len(),
        forall|i: int| 0 <= i < s.len() ==> s[i] != '\r',
    ensures
        line_sizes(s) == seq![first_nl(s) as int] + line_sizes(s.skip(first_nl(s) + 1int)),
        forall|i: int| 0 <= i < s.skip(first_nl(s) + 1int).len() ==> #[trigger] s.skip(first_nl(s) + 1int)[i] != '\r',
{
    let k = first_nl(s) as int;
    assert forall|i: int| 0 <= i < s.skip(k + 1).len() implies #[trigger] s.skip(k + 1)[i] != '\r' by {
        assert(s.skip(k + 1)[i] == s[k + 1 + i]);
    }
}

/// No line of a text without carriage returns holds a line break.
proof fn lemma_lines_hold_no_break(s: Seq<char>)
    requires
        forall|i: int| 0 <= i < s.len() ==> s[i] != '\r',
    ensures
        forall|j: int, i: int|
            #![trigger line_start(line_sizes(s), j), s[i]]
            0 <= j < line_sizes(s).len() && line_start(line_sizes(s), j) <= i < line_end(line_sizes(s), j)
                ==> s[i] != '\n',
    decreases s.len(),
{
    let sz = line_sizes(s);
    lemma_first_nl(s);
    if s.len() > 0 {
        let k = first_nl(s) as int;
        if k < s.len() {
            lemma_lines_cons(s);
            let rest = s.skip(k + 1);
            lemma_lines_hold_no_break(rest);
            lemma_line_bounds(rest);
            let t = line_sizes(rest);
            assert forall|j: int, i: int|
                #![trigger line_start(sz, j), s[i]]
                0 <= j < sz.len() && line_start(sz, j) <= i < line_end(sz, j) implies s[i] != '\n' by {
                if j > 0 {
                    lemma_line_start_cons(k, t, j);
                    lemma_line_start_nonneg(t, j - 1);
                    assert(sz[j] == t[j - 1]);
                    let i2 = i - k - 1;
                    assert(line_start(t, j - 1) <= i2 < line_end(t, j - 1));
                    assert(rest[i2] == s[i]);
                }
            }
        } else {
            assert(sz == seq![s.len() as int]);
        }
    }
}

/// Every line of a text without carriage returns but the last ends at a
/// line break.
proof fn lemma_lines_end_at_break(s: Seq<char>)
    requires
        forall|i: int| 0 <= i < s.len() ==> s[i] != '\r',
    ensures
        forall|j: int|
            0 <= j && j + 1 < line_sizes(s).len() ==> line_end(line_sizes(s), j) < s.len() && s[#[trigger] line_end(
                line_sizes(s),
                j,
            )] == '\n',
    decreases s.len(),
{
    let sz = line_sizes(s);
    lemma_first_nl(s);
    if s.len() > 0 {
        let k = first_nl(s) as int;
        if k < s.len() {
            lemma_lines_cons(s);
            let rest = s.skip(k + 1);
            lemma_lines_end_at_break(rest);
            lemma_line_bounds(rest);
            let t = line_sizes(rest);
            assert forall|j: int| 0 <= j && j + 1 < sz.len() implies line_end(sz, j) < s.len() && s[
                #[trigger] line_end(sz, j)
            ] == '\n' by {
                if j > 0 {
                    lemma_line_start_cons(k, t, j);
                    assert(sz[j] == t[j - 1]);
                    assert(line_end(sz, j) == k + 1 + line_end(t, j - 1));
                    lemma_line_start_nonneg(t, j - 1);
                    assert(line_end(t, j - 1) < rest.len());
                    assert(rest[line_end(t, j - 1)] == s[line_end(sz, j)]);
                } else {
                    assert(line_end(sz, 0) == k);
                }
            }
        } else {
            assert(sz == seq![s.len() as int]);
        }
    }
}

/// The last line of a text without carriage returns ends at the end of the
/// text, or just before a line break that ends it.
proof fn lemma_last_line_ends_text(s: Seq<char>)
    requires
        forall|i: int| 0 <= i < s.len() ==> s[i] != '\r',
    ensures
        s.len() > 0 ==> line_sizes(s).len() > 0,
        line_sizes(s).len() > 0 ==> {
            let e = line_end(line_sizes(s), line_sizes(s).len() - 1);
            e == s.len() || (e + 1 == s.len() && s.last() == '\n')
        },
    decreases s.len(),
{
    let sz = line_sizes(s);
    lemma_first_nl(s);
    if s.len() > 0 {
        let k = first_nl(s) as int;
        if k < s.len() {
            lemma_lines_cons(s);
            let rest = s.skip(k + 1);
            lemma_last_line_ends_text(rest);
            let t = line_sizes(rest);
            if t.len() > 0 {
                let j = sz.len() - 1;
                lemma_line_start_cons(k, t, j);
                assert(sz[j] == t[j - 1]);
                assert(line_end(sz, j) == k + 1 + line_end(t, j - 1));
                if line_end(t, j - 1) + 1 == rest.len() {
                    assert(rest.last() == s.last());
                }
            } else {
                assert(line_end(sz, 0) == k);
                assert(rest.len() == 0);
            }
        } else {
            assert(sz == seq![s.len() as int]);
        }
    }
}

/// In a text without carriage returns, the lines are the pieces between
/// the line breaks: no line holds a line break, every line but the last
/// ends at a line break, and the last one ends at the end of the text (or
/// just before a line break that ends the text).
pub proof fn law_lines_lie_between_breaks(s: Seq<char>)
    requires
        forall|i: int| 0 <= i < s.len() ==> s[i] != '\r',
    ensures
        s.len() > 0 ==> line_sizes(s).len() > 0,
        forall|j: int, i: int|
            #![trigger line_start(line_sizes(s), j), s[i]]
            0 <= j < line_sizes(s).len() && line_start(line_sizes(s), j) <= i < line_end(line_sizes(s), j)
                ==> s[i] != '\n',
        forall|j: int|
            0 <= j && j + 1 < line_sizes(s).len() ==> line_end(line_sizes(s), j) < s.len() && s[#[trigger] line_end(
                line_sizes(s),
                j,
            )] == '\n',
        line_sizes(s).len() > 0 ==> {
            let e = line_end(line_sizes(s), line_sizes(s).len() - 1);
            e == s.len() || (e + 1 == s.len() && s.last() == '\n')
        },
{
    lemma_lines_hold_no_break(s);
    lemma_lines_end_at_break(s);
    lemma_last_line_ends_text(s);
}

/// The lengths of the lines of `v`, as `line_sizes` says.
fn line_sizes_of(v: &Vec<char>) -> (r: Vec<usize>)
    ensures
        r@.len() == line_sizes(v@).len(),
        forall|i: int| 0 <= i < r@.len() ==> r@[i] as int == #[trigger] line_sizes(v@)[i],
{
    let n = v.len();
    let mut r: Vec<usize> = Vec::new();
    let ghost mut done: Seq<int> = Seq::empty();
    let mut pos: usize = 0;
    assert(v@.skip(0) == v@);
    while pos < n
        invariant
            n == v.len(),
            pos <= n,
            done + line_sizes(v@.skip(pos as int)) == line_sizes(v@),
            r@.len() == done.len(),
            forall|i: int| 0 <= i < r@.len() ==> r@[i] as int == #[trigger] done[i],
        decreases n - pos,
    {
        let rest = sub_chars(v, pos, n);
        assert(rest@ == v@.skip(pos as int));
        let k = find_first_nl(&rest);
        proof {
            lemma_first_nl(rest@);
        }
        if k == rest.len() {
            r.push(n - pos);
            proof {
                done = done.push((n - pos) as int);
                assert(v@.skip(n as int).len() == 0);
                assert(line_sizes(v@.skip(n as int)) == Seq::<int>::empty());
                assert(done + line_sizes(v@.skip(n as int)) =~= done);
            }
            pos = n;
        } else {
            let size = if k > 0 && rest[k - 1] == '\r' {
                k - 1
            } else {
                k
            };
            r.push(size);
            proof {
                let tail = line_sizes(rest@.skip(k + 1));
                assert(line_sizes(rest@) == seq![size as int] + tail);
                assert(rest@.skip(k + 1) =~= v@.skip(pos + k + 1));
                assert(done + line_sizes(v@.skip(pos as int)) == done + (seq![size as int] + tail));
                assert(done + (seq![size as int] + tail) =~= done.push(size as int) + tail);
                done = done.push(size as int);
            }
            pos = pos + k + 1;
        }
    }
    assert(v@.skip(n as int).len() == 0);
    assert(done + line_sizes(v@.skip(n as int)) =~= done);
    r
}

/// Where the cursor at `select` goes when moved one line up in the text
/// made of the three parts.
pub fn get_up_usize(text_list: &mut [String; 3], select: usize) -> (r: usize)
    ensures
        *final(text_list) == *old(text_list),
        r as int == up_target(old(text_list)[0]@ + old(text_list)[1]@ + old(text_list)[2]@, select as int),
{
    let text = concat3(text_list);
    let v = chars_of(text.as_str());
    let sizes = line_sizes_of(&v);
    let ghost sz = line_sizes(v@);
    proof {
        lemma_line_bounds(v@);
    }
    let n = v.len();
    let mut all: usize = 0;
    let mut last: (usize, usize) = (0, 0);
    let mut j: usize = 0;
    while j < sizes.len()
        invariant
            n == v@.len(),
            v@ == old(text_list)[0]@ + old(text_list)[1]@ + old(text_list)[2]@,
            *text_list == *old(text_list),
            sz == line_sizes(v@),
            sizes@.len() == sz.len(),
            forall|i: int| 0 <= i < sizes@.len() ==> sizes@[i] as int == #[trigger] sz[i],
            forall|i: int| 0 <= i < sz.len() ==> 0 <= #[trigger] sz[i] && line_end(sz, i) <= v@.len(),
            j <= sizes.len(),
            all as int == line_start(sz, j as int),
            reach_line(sz, select as int) == reach_from(sz, select as int, j as int),
            j == 0 ==> last == (0usize, 0usize),
            j > 0 ==> last.0 as int == line_start(sz, j - 1) && last.1 as int == line_end(sz, j - 1),
            j > 0 ==> select > line_end(sz, j - 1),
        decreases sizes.len() - j,
    {
        let size = sizes[j];
        assert(line_end(sz, j as int) == all + size);
        let end = all + size;
        if select <= end {
            if last.0 == 0 && last.1 == 0 {
                return select;
            }
            let col = select - all;
            if col <= last.1 - last.0 {
                return last.0 + col;
            } else {
                return last.1;
            }
        }
        last = (all, end);
        all = end + 1;
        j += 1;
    }
    select
}

/// Where the cursor at `select` goes when moved one line down in the text
/// made of the three parts.
pub fn get_down_usize(text_list: &mut [String; 3], select: usize) -> (r: usize)
    ensures
        *final(text_list) == *old(text_list),
        r as int == down_target(old(text_list)[0]@ + old(text_list)[1]@ + old(text_list)[2]@, select as int),
{
    let text = concat3(text_list);
    let v = chars_of(text.as_str());
    let sizes = line_sizes_of(&v);
    let ghost sz = line_sizes(v@);
    proof {
        lemma_line_bounds(v@);
    }
    let n = v.len();
    let mut all: usize = 0;
    let mut j: usize = 0;
    while j < sizes.len()
        invariant
            n == v@.len(),
            v@ == old(text_list)[0]@ + old(text_list)[1]@ + old(text_list)[2]@,
            *text_list == *old(text_list),
            j > 0 ==> select > line_end(sz, j - 1),
            sz == line_sizes(v@),
            sizes@.len() == sz.len(),
            forall|i: int| 0 <= i < sizes@.len() ==> sizes@[i] as int == #[trigger] sz[i],
            forall|i: int| 0 <= i < sz.len() ==> 0 <= #[trigger] sz[i] && line_end(sz, i) <= v@.len(),
            j <= sizes.len(),
            all as int == line_start(sz, j as int),
            reach_line(sz, select as int) == reach_from(sz, select as int, j as int),
        decreases sizes.len() - j,
    {
        let size = sizes[j];
        assert(line_end(sz, j as int) == all + size);
        let end = all + size;
        if select <= end {
            if j + 1 < sizes.len() {
                let next_size = sizes[j + 1];
                assert(line_end(sz, j + 1) == end + 1 + next_size);
                let next_start = end + 1;
                let col = select - all;
                if col <= next_size {
                    return next_start + col;
                } else {
                    return next_start + next_size;
                }
            }
            return n;
        }
        all = end + 1;
        j += 1;
    }
    v.len()
}

/// Ctrl+Left and Ctrl+Up without Shift: the front becomes `changed_list[0]`;
/// `changed_list[1]` and the selection move to the start of the back.
pub fn set_left_area_ctrl(text_list: &mut [String; 3], changed_list: [String; 2])
    ensures
        final(text_list)[0]@ == changed_list[0]@,
        final(text_list)[1]@ == old(text_list)[1]@,
        final(text_list)[2]@ == changed_list[1]@ + old(text_list)[1]@ + old(text_list)[2]@,
{
    let moved = join2(changed_list[1].as_str(), text_list[1].as_str());
    let back = join2(moved.as_str(), text_list[2].as_str());
    text_list[0] = changed_list[0].clone();
    text_list[2] = back;
}

/// Left and Up without Shift: `add_text` and the selection move to the
/// start of the back.
pub fn set_left_area(text_list: &mut [String; 3], add_text: String)
    ensures
        final(text_list)[0]@ == old(text_list)[0]@,
        final(text_list)[1]@ == old(text_list)[1]@,
        final(text_list)[2]@ == add_text@ + old(text_list)[1]@ + old(text_list)[2]@,
{
    let moved = join2(add_text.as_str(), text_list[1].as_str());
    text_list[2] = join2(moved.as_str(), text_list[2].as_str());
}

/// Ctrl+Right and Ctrl+Down without Shift: the back becomes
/// `changed_list[1]`; the selection and `changed_list[0]` move to the end of
/// the front.
pub fn set_right_area_ctrl(text_list: &mut [String; 3], changed_list: [String; 2])
    ensures
        final(text_list)[0]@ == old(text_list)[0]@ + old(text_list)[1]@ + changed_list[0]@,
        final(text_list)[1]@ == old(text_list)[1]@,
        final(text_list)[2]@ == changed_list[1]@,
{
    let moved = join2(text_list[1].as_str(), changed_list[0].as_str());
    let front = join2(text_list[0].as_str(), moved.as_str());
    text_list[2] = changed_list[1].clone();
    text_list[0] = front;
}

/// Right and Down without Shift: the selection and `add_text` move to the
/// end of the front.
pub fn set_right_area(text_list: &mut [String; 3], add_text: String)
    ensures
        final(text_list)[0]@ == old(text_list)[0]@ + old(text_list)[1]@ + add_text@,
        final(text_list)[1]@ == old(text_list)[1]@,
        final(text_list)[2]@ == old(text_list)[2]@,
{
    let moved = join2(text_list[1].as_str(), add_text.as_str());
    text_list[0] = join2(text_list[0].as_str(), moved.as_str());
}

/// Shift+Left (with Ctrl: by a word) from a cursor or a selection anchored
/// at its end: the selection grows by the last character (or word) of the
/// front.
pub fn set_left_extend(text_list: &mut [String; 3], is_ctrl: &bool)
    ensures
        ({
            let f = old(text_list)[0]@;
            let s = old(text_list)[1]@;
            let b = old(text_list)[2]@;
            let k = if *is_ctrl {
                front_ctrl_point(f) as int
            } else if f.len() > 0 {
                f.len() - 1
            } else {
                0
            };
            &&& final(text_list)[0]@ == f.take(k)
            &&& final(text_list)[1]@ == f.skip(k) + s
            &&& final(text_list)[2]@ == b
        }),
{
    if *is_ctrl {
        let list = get_front_ctrl(text_list[0].clone());
        let sel = join2(list[1].as_str(), text_list[1].as_str());
        text_list[0] = list[0].clone();
        text_list[1] = sel;
    } else {
        let mut front = text_list[0].clone();
        if let Some(remove) = pop_char(&mut front) {
            let c = char_string(remove);
            let sel = join2(c.as_str(), text_list[1].as_str());
            text_list[0] = front;
            text_list[1] = sel;
            proof {
                let f = old(text_list)[0]@;
                assert(f.skip(f.len() - 1) =~= seq![remove]);
            }
        } else {
            proof {
                let f = old(text_list)[0]@;
                assert(f.take(0) =~= f);
                assert(f.skip(0) =~= f);
            }
        }
    }
}

/// Shift+Right (with Ctrl: by a word) from a cursor or a selection anchored
/// at its start: the selection grows by the first character (or word) of
/// the back.
pub fn set_right_extend(text_list: &mut [String; 3], is_ctrl: &bool)
    ensures
        ({
            let f = old(text_list)[0]@;
            let s = old(text_list)[1]@;
            let b = old(text_list)[2]@;
            let k = if *is_ctrl {
                back_ctrl_point(b) as int
            } else if b.len() > 0 {
                1
            } else {
                0
            };
            &&& final(text_list)[0]@ == f
            &&& final(text_list)[1]@ == s + b.take(k)
            &&& final(text_list)[2]@ == b.skip(k)
        }),
{
    if *is_ctrl {
        let list = get_back_ctrl(text_list[2].clone());
        text_list[1] = join2(text_list[1].as_str(), list[0].as_str());
        text_list[2] = list[1].clone();
    } else {
        let mut back = text_list[2].clone();
        if let Some(remove) = back.front_pop() {
            let c = char_string(remove);
            text_list[1] = join2(text_list[1].as_str(), c.as_str());
            text_list[2] = back;
            proof {
                let b = old(text_list)[2]@;
                assert(b.take(1) =~= seq![remove]);
            }
        } else {
            proof {
                let b = old(text_list)[2]@;
                assert(b.take(0) =~= b);
                assert(b.skip(0) =~= b);
            }
        }
    }
}

/// Shift+Up (with Ctrl: to the start of the line) from a cursor or a
/// selection anchored at its end: the selection grows to the position one
/// line up from the selection's start.
pub fn set_up_extend(text_list: &mut [String; 3], text_field: &mut TextField, is_ctrl: &bool)
    ensures
        *final(text_field) == *old(text_field),
        ({
            let f = old(text_list)[0]@;
            let s = old(text_list)[1]@;
            let b = old(text_list)[2]@;
            let k = if *is_ctrl {
                up_ctrl_point(f) as int
            } else {
                clamp(f, up_target(f + s + b, old(text_field).select.0 as int))
            };
            &&& final(text_list)[0]@ == f.take(k)
            &&& final(text_list)[1]@ == f.skip(k) + s
            &&& final(text_list)[2]@ == b
        }),
{
    let list: [String; 2] = if *is_ctrl {
        get_up_ctrl(text_list[0].clone())
    } else {
        let change_select_usize = get_up_usize(text_list, text_field.select.0);
        text_list[0].split_chars_at(change_select_usize)
    };
    let sel = join2(list[1].as_str(), text_list[1].as_str());
    text_list[0] = list[0].clone();
    text_list[1] = sel;
}

/// Shift+Down (with Ctrl: to the end of the line) from a cursor or a
/// selection anchored at its start: the selection grows to the position one
/// line down from the selection's end.
pub fn set_down_extend(text_list: &mut [String; 3], text_field: &mut TextField, is_ctrl: &bool)
    requires
        !*is_ctrl ==> down_target(cat3(*old(text_list)), old(text_field).select.1 as int)
            >= old(text_list)[0]@.len() + old(text_list)[1]@.len(),
    ensures
        *final(text_field) == *old(text_field),
        ({
            let f = old(text_list)[0]@;
            let s = old(text_list)[1]@;
            let b = old(text_list)[2]@;
            let parts = if *is_ctrl {
                down_ctrl_parts(b)
            } else {
                let k = clamp(b, down_target(f + s + b, old(text_field).select.1 as int) - f.len() - s.len());
                (b.take(k), b.skip(k))
            };
            &&& final(text_list)[0]@ == f
            &&& final(text_list)[1]@ == s + parts.0
            &&& final(text_list)[2]@ == parts.1
        }),
{
    let list = if *is_ctrl {
        get_down_ctrl(text_list[2].clone())
    } else {
        let change_select_usize = get_down_usize(text_list, text_field.select.1);
        let used = text_list[0].size() + text_list[1].size();
        text_list[2].split_chars_at(change_select_usize - used)
    };
    text_list[2] = list[1].clone();
    text_list[1] = join2(text_list[1].as_str(), list[0].as_str());
}

} // verus!
