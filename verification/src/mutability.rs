//! Changing a value through a mutable reference.

use vstd::prelude::*;

verus! {

/// Appends `, world!` to the borrowed string.
pub fn change_string(some_string: &mut String)
    ensures
        final(some_string)@ == old(some_string)@ + ", world!"@,
{
    some_string.append(", world!");
}

} // verus!
