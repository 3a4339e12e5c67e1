//! Passing values into functions: integers are copied, strings are moved.

use vstd::prelude::*;

verus! {

/// Sum of two integers. The caller guarantees that the sum is representable.
pub fn add(a: i32, b: i32) -> (sum: i32)
    requires
        i32::MIN <= a + b <= i32::MAX,
    ensures
        sum == a + b,
{
    a + b
}

/// The two strings joined by one space.
pub fn concatenate(s1: String, s2: String) -> (joined: String)
    ensures
        joined@ == s1@ + " "@ + s2@,
{
    let mut joined = s1;
    joined.append(" ");
    joined.append(s2.as_str());
    joined
}

/// Takes the string for good and hands back the acknowledgement of receipt.
pub fn takes_ownership(some_string: String) -> (receipt: String)
    ensures
        receipt@ == "Received string: "@ + some_string@,
{
    let mut receipt = String::from_str("Received string: ");
    receipt.append(some_string.as_str());
    receipt
}

/// Gives a greeting away and hands back the acknowledgement of its receipt.
pub fn strings_in_funtions_2() -> (receipt: String)
    ensures
        receipt@ == "Received string: "@ + "Hello, Rust!"@,
{
    let my_string = String::from_str("Hello, Rust!");
    takes_ownership(my_string)
}

} // verus!
