//! The password mask.
use vstd::prelude::*;

use crate::tool::{chars_of, push_char};

verus! {

/// The masked form of a text: one bullet per character.
pub open spec fn masked(text: Seq<char>) -> Seq<char> {
    Seq::new(text.len(), |i: int| '•')
}

/// Masks a text for a password field: every character becomes a bullet.
pub fn change_passwd(text: String) -> (r: String)
    ensures
        r@ == masked(text@),
{
    let v = chars_of(text.as_str());
    let mut r = String::new();
    let mut i: usize = 0;
    while i < v.len()
        invariant
            i <= v.len(),
            v@ == text@,
            r@ == masked(text@.take(i as int)),
        decreases v.len() - i,
    {
        push_char(&mut r, '•');
        i += 1;
        assert(r@ =~= masked(text@.take(i as int)));
    }
    assert(text@.take(v.len() as int) == text@);
    r
}

} // verus!
