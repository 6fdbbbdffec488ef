//! Whose turn it is and in which phase: the three setup phases, the action
//! phase, and the run of actions that a sacrifice grants.

use vstd::prelude::*;
use crate::kinds::{Ability, Player};

verus! {

#[derive(Clone, Copy, PartialEq, Eq, Structural, Debug)]
pub enum Phase {
    /// The player chooses the first star of the home system.
    Star1,
    /// The player chooses the second star of the home system.
    Star2,
    /// The player chooses the first ship.
    Ship,
    /// The player chooses one action.
    Action,
    /// The player has this many uses of one ability left.
    Sacrifice(u8, Ability),
}

#[derive(Clone, Copy, PartialEq, Eq, Structural, Debug)]
pub struct Turn {
    pub player: Player,
    pub phase: Phase,
}

impl Turn {
    /// The turn that follows once the current step has been carried out.
    ///
    /// A sacrifice with at most one use left ends the player's turn.
    pub open spec fn successor(self) -> Turn {
        match self.phase {
            Phase::Star1 => Turn { player: self.player, phase: Phase::Star2 },
            Phase::Star2 => Turn { player: self.player, phase: Phase::Ship },
            Phase::Ship => match self.player {
                Player::White => Turn { player: Player::Black, phase: Phase::Star1 },
                Player::Black => Turn { player: Player::White, phase: Phase::Action },
            },
            Phase::Action => Turn { player: self.player.other(), phase: Phase::Action },
            Phase::Sacrifice(n, a) => if n <= 1 {
                Turn { player: self.player.other(), phase: Phase::Action }
            } else {
                Turn { player: self.player, phase: Phase::Sacrifice((n - 1) as u8, a) }
            },
        }
    }

    /// Whether the phase is one of the three setup phases.
    pub open spec fn in_setup(self) -> bool {
        self.phase is Star1 || self.phase is Star2 || self.phase is Ship
    }

    /// The turn that opens a game.
    pub open spec fn initial_turn() -> Turn {
        Turn { player: Player::White, phase: Phase::Star1 }
    }

    /// White begins by choosing a first star.
    pub fn initial() -> (t: Turn)
        ensures
            t == Turn::initial_turn(),
    {
        Turn { player: Player::White, phase: Phase::Star1 }
    }

    pub fn next(self) -> (t: Turn)
        ensures
            t == self.successor(),
    {
        match self.phase {
            Phase::Star1 => Turn { player: self.player, phase: Phase::Star2 },
            Phase::Star2 => Turn { player: self.player, phase: Phase::Ship },
            Phase::Ship => match self.player {
                Player::White => Turn { player: Player::Black, phase: Phase::Star1 },
                Player::Black => Turn { player: Player::White, phase: Phase::Action },
            },
            Phase::Action => Turn { player: self.player.inv(), phase: Phase::Action },
            Phase::Sacrifice(n, a) => {
                if n <= 1 {
                    Turn { player: self.player.inv(), phase: Phase::Action }
                } else {
                    Turn { player: self.player, phase: Phase::Sacrifice(n - 1, a) }
                }
            },
        }
    }
}

} // verus!
