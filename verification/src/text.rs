//! Texts by their characters, and their comparison without regard to the
//! case of ASCII letters.

use vstd::prelude::*;
use vstd::std_specs::iter::IteratorSpec;

verus! {

/// The characters of a text.
pub fn chars_of(text: &str) -> (chars: Vec<char>)
    ensures
        chars@ == text@,
{
    let mut chars: Vec<char> = Vec::new();
    let mut rest = text.chars();
    assert(chars@ + rest.remaining() =~= text@);
    loop
        invariant
            rest.obeys_prophetic_iter_laws(),
            rest.decrease() is Some,
            text@ == chars@ + rest.remaining(),
        decreases rest.decrease()->0,
    {
        match rest.next() {
            Some(c) => {
                chars.push(c);
                assert(chars@ + rest.remaining() =~= text@);
            },
            None => {
                assert(chars@ + rest.remaining() =~= chars@);
                return chars;
            },
        }
    }
}

/// The code point of a character, with the ASCII capital letters moved to
/// their small letters.
pub open spec fn lowered(c: char) -> u32 {
    if 65 <= c as u32 <= 90 {
        (c as u32 + 32) as u32
    } else {
        c as u32
    }
}

/// Whether two texts are the same but for the case of their ASCII letters.
pub open spec fn same_ignoring_ascii_case(a: Seq<char>, b: Seq<char>) -> bool {
    &&& a.len() == b.len()
    &&& forall|i: int| 0 <= i < a.len() ==> lowered(#[trigger] a[i]) == lowered(b[i])
}

fn lower(c: char) -> (code: u32)
    ensures
        code == lowered(c),
{
    let code = c as u32;
    if 65 <= code && code <= 90 {
        code + 32
    } else {
        code
    }
}

/// Compares two texts without regard to the case of their ASCII letters.
pub fn eq_ignoring_ascii_case(a: &str, b: &str) -> (same: bool)
    ensures
        same == same_ignoring_ascii_case(a@, b@),
{
    let left = chars_of(a);
    let right = chars_of(b);
    let n = left.len();
    if right.len() != n {
        return false;
    }
    let mut i: usize = 0;
    while i < n
        invariant
            0 <= i <= n,
            left@ == a@,
            right@ == b@,
            n == left@.len(),
            n == right@.len(),
            forall|k: int| 0 <= k < i ==> lowered(#[trigger] left@[k]) == lowered(right@[k]),
        decreases n - i,
    {
        if lower(left[i]) != lower(right[i]) {
            return false;
        }
        i += 1;
    }
    true
}

} // verus!
