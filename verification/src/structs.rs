//! Structs with methods: a rectangle, and a struct without fields.

use crate::text::{append_decimal, decimal};
use vstd::prelude::*;

verus! {

/// A rectangle with sides of whole length.
#[derive(Clone, Copy, PartialEq, Eq)]
pub struct Rectangle {
    pub width: u32,
    pub height: u32,
}

/// The text that shows a rectangle with its field names and values.
pub open spec fn rectangle_text(rectangle: Rectangle) -> Seq<char> {
    "Rectangle { width: "@ + decimal(rectangle.width as nat) + ", height: "@ + decimal(
        rectangle.height as nat,
    ) + " }"@
}

impl Rectangle {
    /// The area. The caller guarantees that it is representable.
    pub fn area(&self) -> (area: u32)
        requires
            self.width * self.height <= u32::MAX,
        ensures
            area == self.width * self.height,
    {
        self.width * self.height
    }

    /// The perimeter. The caller guarantees that it is representable.
    pub fn perimeter(&self) -> (perimeter: u32)
        requires
            2 * self.width + 2 * self.height <= u32::MAX,
        ensures
            perimeter == 2 * self.width + 2 * self.height,
    {
        2 * self.width + 2 * self.height
    }

    /// The rectangle written out with its field names and values.
    pub fn debug_text(&self) -> (text: String)
        ensures
            text@ == rectangle_text(*self),
    {
        let mut text = String::from_str("Rectangle { width: ");
        append_decimal(&mut text, self.width as u64);
        text.append(", height: ");
        append_decimal(&mut text, self.height as u64);
        text.append(" }");
        text
    }
}

/// A struct without fields.
pub struct UnitStruct;

impl UnitStruct {
    /// Zero, whatever the receiver.
    pub fn new(&self) -> (zero: u32)
        ensures
            zero == 0,
    {
        0
    }
}

} // verus!
