//! Building and transforming text, character by character.

use vstd::prelude::*;

verus! {

/// Appends one character to a string.
///
/// Trusted: `String::push` of the standard library, which appends the given
/// character to the end of the string.
#[verifier::external_body]
pub(crate) fn push_char(text: &mut String, c: char)
    ensures
        final(text)@ == old(text)@.push(c),
{
    text.push(c);
}

/// The text with every occurrence of one character replaced by another.
pub open spec fn replaced(text: Seq<char>, from: char, to: char) -> Seq<char> {
    Seq::new(text.len(), |i: int| if text[i] == from { to } else { text[i] })
}

/// Replaces every occurrence of one character by another.
pub fn replace_char(text: &str, from: char, to: char) -> (r: String)
    ensures
        r@ == replaced(text@, from, to),
{
    broadcast use vstd::string::group_string_axioms;

    let mut out = String::new();
    for c in it: text.chars()
        invariant
            it.seq() == text@,
            out@ == replaced(text@.take(it.index() as int), from, to),
    {
        push_char(&mut out, if c == from { to } else { c });
        assert(out@ =~= replaced(text@.take(it.index() + 1), from, to));
    }
    assert(text@.take(text@.len() as int) =~= text@);
    out
}

} // verus!
