//! Gate that keeps shell metacharacters out of anything that is later
//! interpolated into a textual query.

use crate::text::chars_of;
use vstd::prelude::*;

verus! {

/// Whether `c` is one of the characters that no unit expression, delimiter
/// or exponent symbol may contain.
pub open spec fn is_unsafe_char(c: char) -> bool {
    c == ';' || c == '&' || c == '|' || c == '>' || c == '<' || c == '$' || c == '!' || c == '`'
}

/// A text is safe when none of its characters is an unsafe one.
pub open spec fn is_safe_text(s: Seq<char>) -> bool {
    forall|i: int| 0 <= i < s.len() ==> !is_unsafe_char(#[trigger] s[i])
}

/// Executable form of [`is_unsafe_char`].
pub fn unsafe_char(c: char) -> (r: bool)
    ensures
        r == is_unsafe_char(c),
{
    c == ';' || c == '&' || c == '|' || c == '>' || c == '<' || c == '$' || c == '!' || c == '`'
}

/// Whether `input` is free of unsafe characters.
pub fn is_safe(input: &str) -> (r: bool)
    ensures
        r == is_safe_text(input@),
{
    let v = chars_of(input);
    let mut i: usize = 0;
    while i < v.len()
        invariant
            i <= v.len(),
            v@ == input@,
            forall|j: int| 0 <= j < i ==> !is_unsafe_char(#[trigger] v@[j]),
        decreases v.len() - i,
    {
        if unsafe_char(v[i]) {
            return false;
        }
        i += 1;
    }
    true
}

} // verus!
