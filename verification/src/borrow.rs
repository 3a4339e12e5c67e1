//! Lending values to functions: shared references read, mutable ones write.

use vstd::prelude::*;

verus! {

/// Reads the borrowed string and hands back the acknowledgement of receipt.
pub fn takes_ownership(some_string: &String) -> (receipt: String)
    ensures
        receipt@ == "Received string: "@ + some_string@,
{
    let mut receipt = String::from_str("Received string: ");
    receipt.append(some_string.as_str());
    receipt
}

/// Appends `, world!` to the borrowed string.
pub fn update_string(some_string: &mut String)
    ensures
        final(some_string)@ == old(some_string)@ + ", world!"@,
{
    some_string.append(", world!");
}

} // verus!
