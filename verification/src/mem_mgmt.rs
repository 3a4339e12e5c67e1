//! Borrowing and slices: functions that read a string without taking it.

use crate::text::find_char;
use vstd::prelude::*;
use vstd::string::StrSliceExecFns;
use vstd::utf8::encode_utf8;

verus! {

/// The text before the first space of `text`; all of it where it has no space.
pub open spec fn leading_word(text: Seq<char>) -> Seq<char> {
    match text.index_of_first(' ') {
        Some(at) => text.take(at),
        None => text,
    }
}

/// The length of the string in bytes of its UTF-8 encoding.
pub fn calculate_length(s: &String) -> (length: usize)
    ensures
        length == encode_utf8(s@).len(),
{
    s.as_str().as_bytes().len()
}

/// Appends `, world!` to the borrowed string.
pub fn change_string(some_string: &mut String)
    ensures
        final(some_string)@ == old(some_string)@ + ", world!"@,
{
    some_string.append(", world!");
}

/// The first word of `s`: the part before its first space, or all of `s`
/// where it has no space.
pub fn get_first_word(s: &str) -> (word: &str)
    ensures
        word@ == leading_word(s@),
{
    proof {
        s@.index_of_first_ensures(' ');
    }
    match find_char(s, ' ') {
        Some(at) => s.substring_char(0, at),
        None => s,
    }
}

/// The longer of two strings by length in bytes; the second where they are
/// equally long.
pub fn longest<'a>(x: &'a str, y: &'a str) -> (longer: &'a str)
    ensures
        longer@ == (if encode_utf8(x@).len() > encode_utf8(y@).len() {
            x@
        } else {
            y@
        }),
{
    if x.as_bytes().len() > y.as_bytes().len() {
        x
    } else {
        y
    }
}

} // verus!
