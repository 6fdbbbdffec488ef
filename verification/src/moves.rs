//! The moves a player can ask for, and the fixed table that numbers them.

use vstd::prelude::*;
use crate::kinds::{color_of, key_color, Color, Key, Size};

verus! {

/// A move, as a player names it.
#[derive(Clone, Copy, PartialEq, Eq, Debug)]
pub enum Move {
    /// Take over an enemy ship.
    Attack(Key),
    /// Build a ship of the colour of one's own ship, beside it.
    Construct(Key),
    /// Exchange one's ship for a piece of the same size and another colour.
    Transform(Key, Color),
    /// Give up one's ship for a run of actions of its colour.
    Sacrifice(Key),
    /// Choose the ship that is to travel.
    MoveInit(Key),
    /// Send the chosen ship to a system.
    MoveFinish(Key),
    /// Choose a piece during setup.
    Select(Size, Color),
    /// Clear an overpopulation of one colour at the system of a ship.
    Catastrophe(Key),
    /// End the turn without acting.
    Pass,
}

/// Length of the table of moves.
pub const MOVE_COUNT: usize = 338;

/// The colour in place `j` of the three colours other than that of piece `k`,
/// taken in the order red, yellow, green, blue.
pub open spec fn other_color(k: int, j: int) -> Color {
    if j < color_of(k).index() {
        Color::at(j)
    } else {
        Color::at(j + 1)
    }
}

/// The move in place `i` of the table: the attacks by key, the constructions
/// by key, for each key its three transformations, the sacrifices, the
/// departures, the arrivals, for each size the four selections, the
/// catastrophes, and two passes.
pub open spec fn move_at(i: int) -> Move {
    if i < 36 {
        Move::Attack(i as Key)
    } else if i < 72 {
        Move::Construct((i - 36) as Key)
    } else if i < 180 {
        Move::Transform(((i - 72) / 3) as Key, other_color((i - 72) / 3, (i - 72) % 3))
    } else if i < 216 {
        Move::Sacrifice((i - 180) as Key)
    } else if i < 252 {
        Move::MoveInit((i - 216) as Key)
    } else if i < 288 {
        Move::MoveFinish((i - 252) as Key)
    } else if i < 300 {
        Move::Select(Size::at((i - 288) / 4), Color::at((i - 288) % 4))
    } else if i < 336 {
        Move::Catastrophe((i - 300) as Key)
    } else {
        Move::Pass
    }
}

impl Move {
    /// Every key that the move names is the key of a piece.
    pub open spec fn names_pieces(self) -> bool {
        match self {
            Move::Attack(k) => k < 36,
            Move::Construct(k) => k < 36,
            Move::Transform(k, _) => k < 36,
            Move::Sacrifice(k) => k < 36,
            Move::MoveInit(k) => k < 36,
            Move::MoveFinish(k) => k < 36,
            Move::Select(_, _) => true,
            Move::Catastrophe(k) => k < 36,
            Move::Pass => true,
        }
    }

    /// The move in place `i` of the table.
    pub fn at(i: usize) -> (m: Move)
        requires
            i < MOVE_COUNT,
        ensures
            m == move_at(i as int),
    {
        if i < 36 {
            Move::Attack(i as u8)
        } else if i < 72 {
            Move::Construct((i - 36) as u8)
        } else if i < 180 {
            let k: u8 = ((i - 72) / 3) as u8;
            let j: u8 = ((i - 72) % 3) as u8;
            let own: u8 = key_color(k).to_index();
            let c: u8 = if j < own {
                j
            } else {
                j + 1
            };
            Move::Transform(k, color_at(c))
        } else if i < 216 {
            Move::Sacrifice((i - 180) as u8)
        } else if i < 252 {
            Move::MoveInit((i - 216) as u8)
        } else if i < 288 {
            Move::MoveFinish((i - 252) as u8)
        } else if i < 300 {
            Move::Select(size_at(((i - 288) / 4) as u8), color_at(((i - 288) % 4) as u8))
        } else if i < 336 {
            Move::Catastrophe((i - 300) as u8)
        } else {
            Move::Pass
        }
    }
}

fn color_at(i: u8) -> (c: Color)
    ensures
        c == Color::at(i as int),
{
    match i {
        0 => Color::Red,
        1 => Color::Yellow,
        2 => Color::Green,
        _ => Color::Blue,
    }
}

fn size_at(i: u8) -> (s: Size)
    ensures
        s == Size::at(i as int),
{
    match i {
        0 => Size::Small,
        1 => Size::Medium,
        _ => Size::Large,
    }
}

/// The whole table of moves, in order.
pub fn all_moves() -> (v: Vec<Move>)
    ensures
        v@.len() == MOVE_COUNT,
        forall|i: int| 0 <= i < MOVE_COUNT ==> #[trigger] v@[i] == move_at(i),
{
    let mut v: Vec<Move> = Vec::new();
    let mut i: usize = 0;
    while i < MOVE_COUNT
        invariant
            i <= MOVE_COUNT,
            v@.len() == i,
            forall|j: int| 0 <= j < i ==> #[trigger] v@[j] == move_at(j),
        decreases MOVE_COUNT - i,
    {
        v.push(Move::at(i));
        i += 1;
    }
    v
}

} // verus!
