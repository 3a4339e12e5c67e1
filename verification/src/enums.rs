//! Enumerations with and without data, and functions that match on them.
//!
//! Functions that announce something build the announcement and hand it to
//! the caller, who decides where it goes.

use crate::text::{append_decimal, decimal};
use vstd::prelude::*;

verus! {

/// A compass direction.
#[derive(Debug, Clone, Copy, PartialEq, Eq)]
pub enum Directions {
    North,
    South,
    East,
    West,
}

/// The left or the right side.
#[derive(Debug, Clone, Copy, PartialEq, Eq)]
pub enum Side {
    Left,
    Right,
}

/// A move in a game, with the data that the move needs.
#[derive(Debug, Clone, Copy, PartialEq, Eq)]
pub enum Moves {
    /// A jump of height `h`.
    Jump { h: u32 },
    Duck,
    /// A peek to side `k`.
    Peek { k: Side },
    /// A walk in direction `d` with speed `s` and vigor `v`.
    Walk { d: Directions, s: u32, v: u32 },
    /// A run with speed `s` and vigor `v`.
    Run { s: u32, v: u32 },
}

/// The name of a direction, as it is written in the source.
pub open spec fn direction_name(direction: Directions) -> Seq<char> {
    match direction {
        Directions::North => "North"@,
        Directions::South => "South"@,
        Directions::East => "East"@,
        Directions::West => "West"@,
    }
}

/// The name of a side, as it is written in the source.
pub open spec fn side_name(side: Side) -> Seq<char> {
    match side {
        Side::Left => "Left"@,
        Side::Right => "Right"@,
    }
}

/// The announcement of a turn to `direction`.
pub open spec fn turn_text(direction: Directions) -> Seq<char> {
    match direction {
        Directions::North => "Moving North"@,
        Directions::South => "Moving South"@,
        Directions::East => "Moving East"@,
        Directions::West => "Moving West"@,
    }
}

/// The announcement that a move makes when it is carried out.
pub open spec fn charge_text(action: Moves) -> Seq<char> {
    match action {
        Moves::Jump { h } => "Jumping with height: "@ + decimal(h as nat),
        Moves::Duck => "Ducking"@,
        Moves::Peek { k } => match k {
            Side::Left => "Peeking Left"@,
            Side::Right => "Peeking Right"@,
        },
        Moves::Walk { d, s, v } => "Walking: "@ + direction_name(d) + ", speed: "@ + decimal(
            s as nat,
        ) + ", velocity: "@ + decimal(v as nat),
        Moves::Run { s, v } => "Running: speed: "@ + decimal(s as nat) + ", velocity: "@ + decimal(
            v as nat,
        ),
    }
}

/// The description of a move.
pub open spec fn describe_text(action: Moves) -> Seq<char> {
    match action {
        Moves::Jump { h } => "A "@ + decimal(h as nat) + " meter high jump"@,
        Moves::Duck => "Ducking down low"@,
        Moves::Peek { k } => "Peeking to the "@ + side_name(k),
        Moves::Walk { d, s, v } => "Walking "@ + direction_name(d) + " with speed "@ + decimal(
            s as nat,
        ) + " and vigor "@ + decimal(v as nat),
        Moves::Run { s, v } => "Running with speed "@ + decimal(s as nat) + " and vigor "@
            + decimal(v as nat),
    }
}

/// The energy that a move costs: twice the height of a jump, one for a duck
/// or a peek, speed plus vigor for a walk, and twice that for a run.
pub open spec fn energy(action: Moves) -> int {
    match action {
        Moves::Jump { h } => h * 2,
        Moves::Duck => 1,
        Moves::Peek { .. } => 1,
        Moves::Walk { s, v, .. } => s + v,
        Moves::Run { s, v } => (s + v) * 2,
    }
}

impl Directions {
    /// The name of the direction.
    pub fn name(&self) -> (name: &'static str)
        ensures
            name@ == direction_name(*self),
    {
        match self {
            Directions::North => "North",
            Directions::South => "South",
            Directions::East => "East",
            Directions::West => "West",
        }
    }
}

/// The announcement of a turn to `direction`.
pub fn turn_to_direction(direction: Directions) -> (message: &'static str)
    ensures
        message@ == turn_text(direction),
{
    match direction {
        Directions::North => "Moving North",
        Directions::South => "Moving South",
        Directions::East => "Moving East",
        Directions::West => "Moving West",
    }
}

/// The announcements of a turn to each direction: north, south, east, west.
pub fn demonstrate_enums() -> (messages: Vec<&'static str>)
    ensures
        messages.len() == 4,
        messages[0]@ == turn_text(Directions::North),
        messages[1]@ == turn_text(Directions::South),
        messages[2]@ == turn_text(Directions::East),
        messages[3]@ == turn_text(Directions::West),
{
    let mut messages: Vec<&'static str> = Vec::new();
    messages.push(turn_to_direction(Directions::North));
    messages.push(turn_to_direction(Directions::South));
    messages.push(turn_to_direction(Directions::East));
    messages.push(turn_to_direction(Directions::West));
    messages
}

impl Side {
    /// The name of the side.
    pub fn name(&self) -> (name: &'static str)
        ensures
            name@ == side_name(*self),
    {
        match self {
            Side::Left => "Left",
            Side::Right => "Right",
        }
    }

    /// The other side.
    pub fn opposite(&self) -> (other: Side)
        ensures
            other == (match *self {
                Side::Left => Side::Right,
                Side::Right => Side::Left,
            }),
    {
        match self {
            Side::Left => Side::Right,
            Side::Right => Side::Left,
        }
    }
}

impl Moves {
    /// The announcement that the move makes when it is carried out.
    pub fn charge(&self) -> (message: String)
        ensures
            message@ == charge_text(*self),
    {
        match self {
            Moves::Jump { h } => {
                let mut message = String::from_str("Jumping with height: ");
                append_decimal(&mut message, *h as u64);
                message
            },
            Moves::Duck => String::from_str("Ducking"),
            Moves::Peek { k } => match k {
                Side::Left => String::from_str("Peeking Left"),
                Side::Right => String::from_str("Peeking Right"),
            },
            Moves::Walk { d, s, v } => {
                let mut message = String::from_str("Walking: ");
                message.append(d.name());
                message.append(", speed: ");
                append_decimal(&mut message, *s as u64);
                message.append(", velocity: ");
                append_decimal(&mut message, *v as u64);
                message
            },
            Moves::Run { s, v } => {
                let mut message = String::from_str("Running: speed: ");
                append_decimal(&mut message, *s as u64);
                message.append(", velocity: ");
                append_decimal(&mut message, *v as u64);
                message
            },
        }
    }

    /// The energy that the move costs.
    pub fn energy_cost(&self) -> (cost: u32)
        requires
            energy(*self) <= u32::MAX,
        ensures
            cost == energy(*self),
    {
        match self {
            Moves::Jump { h } => *h * 2,
            Moves::Duck => 1,
            Moves::Peek { .. } => 1,
            Moves::Walk { s, v, .. } => *s + *v,
            Moves::Run { s, v } => (*s + *v) * 2,
        }
    }

    /// The description of the move.
    pub fn describe(&self) -> (description: String)
        ensures
            description@ == describe_text(*self),
    {
        match self {
            Moves::Jump { h } => {
                let mut description = String::from_str("A ");
                append_decimal(&mut description, *h as u64);
                description.append(" meter high jump");
                description
            },
            Moves::Duck => String::from_str("Ducking down low"),
            Moves::Peek { k } => {
                let mut description = String::from_str("Peeking to the ");
                description.append(k.name());
                description
            },
            Moves::Walk { d, s, v } => {
                let mut description = String::from_str("Walking ");
                description.append(d.name());
                description.append(" with speed ");
                append_decimal(&mut description, *s as u64);
                description.append(" and vigor ");
                append_decimal(&mut description, *v as u64);
                description
            },
            Moves::Run { s, v } => {
                let mut description = String::from_str("Running with speed ");
                append_decimal(&mut description, *s as u64);
                description.append(" and vigor ");
                append_decimal(&mut description, *v as u64);
                description
            },
        }
    }

    /// Whether the move is fast: only a run with a speed above five is.
    pub fn is_fast_move(&self) -> (fast: bool)
        ensures
            fast == (*self matches Moves::Run { s, .. } && s > 5),
    {
        match self {
            Moves::Run { s, .. } if *s > 5 => true,
            _ => false,
        }
    }
}

} // verus!
