//! The rules of the game as a function from a position and a move to the
//! position that follows, or to nothing where the move is refused.

use vstd::prelude::*;
use crate::edits::{
    drop_second, insert_after, place_alone, place_first, place_second, promote, remove_ship,
    replace_ship, scatter, set_owner,
};
use crate::kinds::{color_of, first_key, size_of, Ability, Color, Key, Player, Size};
use crate::moves::{move_at, Move};
use crate::position::{first_empty, Piece};
use crate::rings::{owner_of, parent_of, partner_of, ship_of, wf_board};
use crate::turn::{Phase, Turn};

verus! {

/// A position: the board, whose turn it is, the ship that is travelling, how
/// often the position has recurred, and the home stars of the two players.
pub struct State {
    pub board: Seq<Piece>,
    pub turn: Turn,
    pub moving: Option<Key>,
    pub repetition: u8,
    pub wstar: Option<Key>,
    pub bstar: Option<Key>,
}

/// The two sizes of a system; a system of one star has its size twice.
pub open spec fn star_sizes(b: Seq<Piece>, p: Key) -> (Size, Size) {
    match partner_of(b, p as int) {
        Some(x) => (size_of(p as int), size_of(x as int)),
        None => (size_of(p as int), size_of(p as int)),
    }
}

/// Two systems are connected when they have no size in common.
pub open spec fn connected(b: Seq<Piece>, from: Key, to: Key) -> bool {
    let f = star_sizes(b, from);
    let t = star_sizes(b, to);
    f.0 != t.0 && f.0 != t.1 && f.1 != t.0 && f.1 != t.1
}

/// The ships of colour `c` at system `p` among the keys below `n`, in
/// ascending order.
pub open spec fn ships_of_color(b: Seq<Piece>, p: int, c: Color, n: int) -> Seq<Key>
    decreases n,
{
    if n <= 0 {
        Seq::empty()
    } else if ship_of(b, n - 1, p) && color_of(n - 1) == c {
        ships_of_color(b, p, c, n - 1).push((n - 1) as Key)
    } else {
        ships_of_color(b, p, c, n - 1)
    }
}

/// The list that [`ships_of_color`] gives is ascending, and each of its keys
/// is a ship of the system and of the colour.
pub proof fn lemma_ships_of_color(b: Seq<Piece>, p: int, c: Color, n: int)
    requires
        n <= 36,
    ensures
        ships_of_color(b, p, c, n).len() <= n || n < 0,
        forall|i: int|
            #![trigger ships_of_color(b, p, c, n)[i]]
            0 <= i < ships_of_color(b, p, c, n).len() ==> {
                &&& ships_of_color(b, p, c, n)[i] < n
                &&& ship_of(b, ships_of_color(b, p, c, n)[i] as int, p)
                &&& color_of(ships_of_color(b, p, c, n)[i] as int) == c
            },
        forall|i: int, j: int|
            0 <= i < j < ships_of_color(b, p, c, n).len() ==> ships_of_color(b, p, c, n)[i]
                < ships_of_color(b, p, c, n)[j],
        forall|k: int|
            0 <= k < n && ship_of(b, k, p) && color_of(k) == c ==> ships_of_color(
                b,
                p,
                c,
                n,
            ).contains(k as Key),
    decreases n,
{
    if n > 0 {
        lemma_ships_of_color(b, p, c, n - 1);
        let before = ships_of_color(b, p, c, n - 1);
        let ks = ships_of_color(b, p, c, n);
        assert forall|k: int| 0 <= k < n && ship_of(b, k, p) && color_of(k) == c implies ks.contains(
            k as Key,
        ) by {
            if k < n - 1 {
                assert(before.contains(k as Key));
                let i = choose|i: int| 0 <= i < before.len() && before[i] == k as Key;
                assert(ks[i] == k as Key);
            } else {
                assert(ks[ks.len() - 1] == k as Key);
            }
        }
    }
}

/// The board after the ships `ks` have been removed one after the other.
pub open spec fn remove_each(b: Seq<Piece>, ks: Seq<Key>) -> Seq<Piece>
    decreases ks.len(),
{
    if ks.len() == 0 {
        b
    } else {
        remove_each(remove_ship(b, ks[0]), ks.drop_first())
    }
}

/// Number of pieces of the colour of ship `t` at its system: the ships of
/// that colour and the stars of that colour.
pub open spec fn cluster_size(b: Seq<Piece>, t: Key) -> int {
    let p = parent_of(b, t as int);
    let c = color_of(t as int);
    ships_of_color(b, p as int, c, 36).len() + (if color_of(p as int) == c {
        1int
    } else {
        0int
    }) + (match partner_of(b, p as int) {
        Some(x) => if color_of(x as int) == c {
            1int
        } else {
            0int
        },
        None => 0int,
    })
}

/// The board after the catastrophe of the colour of ship `t` at its system.
///
/// The ships of that colour leave one by one. Then the stars of that colour
/// leave: when no star is left the remaining ships leave with them; when the
/// first half of a binary system leaves alone, the second half takes over the
/// ships.
pub open spec fn blast(b: Seq<Piece>, t: Key) -> Seq<Piece> {
    let p = parent_of(b, t as int);
    let c = color_of(t as int);
    let b1 = remove_each(b, ships_of_color(b, p as int, c, 36));
    let p_hit = color_of(p as int) == c;
    match partner_of(b, p as int) {
        Some(x) => {
            let x_hit = color_of(x as int) == c;
            if p_hit && x_hit {
                scatter(b1, p)
            } else if p_hit {
                promote(b1, p, x)
            } else if x_hit {
                drop_second(b1, p, x)
            } else {
                b1
            }
        },
        None => if p_hit {
            scatter(b1, p)
        } else {
            b1
        },
    }
}

impl State {
    /// The home star that a player chose.
    pub open spec fn home(self, who: Player) -> Option<Key> {
        match who {
            Player::White => self.wstar,
            Player::Black => self.bstar,
        }
    }

    /// The same position with another home star for one player.
    pub open spec fn with_home(self, who: Player, star: Key) -> State {
        match who {
            Player::White => State { wstar: Some(star), ..self },
            Player::Black => State { bstar: Some(star), ..self },
        }
    }

    /// What holds of every position that play can reach.
    pub open spec fn wf(self) -> bool {
        &&& wf_board(self.board)
        &&& self.moving matches Some(f) ==> {
            &&& f < 36
            &&& self.board[f as int] is Ship
            &&& !self.turn.in_setup()
        }
        &&& self.turn.phase is Star2 ==> {
            &&& self.home(self.turn.player) matches Some(s)
            &&& s < 36
            &&& self.board[s as int] == (Piece::BinaryFirst { child: None, sibling: None })
        }
        &&& self.turn.phase is Ship ==> {
            &&& self.home(self.turn.player) matches Some(s)
            &&& s < 36
            &&& self.board[s as int] is BinaryFirst
            &&& self.board[s as int].child() is None
        }
    }

    /// Slot `k` holds a ship of the player to move, at system `p`.
    pub open spec fn friend_at(self, p: Key, k: int) -> bool {
        ship_of(self.board, k, p as int) && owner_of(self.board, k) == self.turn.player
    }

    /// The phase lets the player use `ability`: any in the action phase, the
    /// one that a sacrifice granted during its run.
    pub open spec fn phase_allows(self, ability: Ability) -> bool {
        match self.turn.phase {
            Phase::Action => true,
            Phase::Sacrifice(_, a) => a == ability,
            _ => false,
        }
    }

    /// The player has the colour of `ability` at system `p`: by a sacrifice,
    /// by the colour of the star `p`, or by a ship of their own there.
    pub open spec fn has_color(self, p: Key, ability: Ability) -> bool {
        ||| self.turn.phase matches Phase::Sacrifice(_, a) && a == ability
        ||| Ability::of(color_of(p as int)) == ability
        ||| exists|k: int| #[trigger] self.friend_at(p, k) && Ability::of(color_of(k)) == ability
    }

    /// A ship of the player to move at system `p` is at least as large as
    /// the piece `t`; a small piece needs none.
    pub open spec fn can_overpower(self, p: Key, t: Key) -> bool {
        ||| size_of(t as int) == Size::Small
        ||| exists|k: int| #[trigger]
            self.friend_at(p, k) && size_of(k).index() >= size_of(t as int).index()
    }

    /// Below `t` stands a ship of the same owner, system and colour, and, if
    /// `sized`, of the same size.
    pub open spec fn has_lower_twin(self, t: Key, sized: bool) -> bool {
        exists|k: int|
            0 <= k < t && #[trigger] ship_of(self.board, k, parent_of(self.board, t as int) as int)
                && owner_of(self.board, k) == owner_of(self.board, t as int) && color_of(k)
                == color_of(t as int) && (sized ==> size_of(k) == size_of(t as int))
    }

    /// `t` is a ship of the player to move.
    pub open spec fn own_ship(self, t: Key) -> bool {
        t < 36 && self.board[t as int] is Ship && owner_of(self.board, t as int)
            == self.turn.player
    }

    /// `t` is a ship of the other player.
    pub open spec fn enemy_ship(self, t: Key) -> bool {
        t < 36 && self.board[t as int] is Ship && owner_of(self.board, t as int)
            != self.turn.player
    }

    /// The position after the catastrophe at the ship `t`, where one is due.
    pub open spec fn catastrophe(self, t: Key) -> Option<State> {
        if t < 36 && self.board[t as int] is Ship && cluster_size(self.board, t) >= 4 {
            let b = blast(self.board, t);
            Some(
                State {
                    board: b,
                    moving: match self.moving {
                        Some(f) => if b[f as int] is Ship {
                            Some(f)
                        } else {
                            None
                        },
                        None => None,
                    },
                    ..self
                },
            )
        } else {
            None
        }
    }

    /// The position after a catastrophe has been tried at every key from `k`
    /// upwards, in ascending order.
    pub open spec fn sweep_from(self, k: int) -> State
        decreases 36 - k,
    {
        if k < 0 || k >= 36 {
            self
        } else {
            (match self.catastrophe(k as Key) {
                Some(s) => s,
                None => self,
            }).sweep_from(k + 1)
        }
    }

    /// The position once the current step is done: the turn moves on, and
    /// when the other player is to move, every due catastrophe takes place.
    pub open spec fn advance(self) -> State {
        let next = self.turn.successor();
        let s = State { turn: next, ..self };
        if next.player != self.turn.player {
            s.sweep_from(0)
        } else {
            s
        }
    }

    /// An attack takes over the enemy ship `t`. The player needs red at the
    /// system and a ship there that is no smaller than `t`; of several equal
    /// enemy ships there, only the one with the lowest key can be taken.
    pub open spec fn attack(self, t: Key) -> Option<State> {
        let p = parent_of(self.board, t as int);
        if self.moving is None && self.phase_allows(Ability::Attack) && self.enemy_ship(t)
            && self.has_color(p, Ability::Attack) && self.can_overpower(p, t)
            && !self.has_lower_twin(t, true) {
            Some(State { board: set_owner(self.board, t, self.turn.player), ..self }.advance())
        } else {
            None
        }
    }

    /// A construction puts the lowest unused piece of the colour of the
    /// player's ship `t` behind `t` in its ring. The player needs green at
    /// the system; of several ships of one colour there, only the one with
    /// the lowest key builds.
    pub open spec fn construct(self, t: Key) -> Option<State> {
        let p = parent_of(self.board, t as int);
        let lo = color_of(t as int).index() * 9;
        if self.moving is None && self.phase_allows(Ability::Construct) && self.own_ship(t)
            && self.has_color(p, Ability::Construct) && !self.has_lower_twin(t, false) {
            match first_empty(self.board, lo, lo + 9) {
                Some(n) => Some(
                    State {
                        board: insert_after(self.board, t, n, self.turn.player),
                        ..self
                    }.advance(),
                ),
                None => None,
            }
        } else {
            None
        }
    }

    /// A transformation exchanges the player's ship `t` for the lowest
    /// unused piece of its size and of the colour asked for. The player
    /// needs blue at the system; of several equal ships there, only the one
    /// with the lowest key is exchanged.
    pub open spec fn transform(self, t: Key, color: Color) -> Option<State> {
        let p = parent_of(self.board, t as int);
        let lo = first_key(size_of(t as int), color);
        if self.moving is None && self.phase_allows(Ability::Transform) && self.own_ship(t)
            && self.has_color(p, Ability::Transform) && !self.has_lower_twin(t, true) {
            match first_empty(self.board, lo, lo + 3) {
                Some(n) => Some(
                    State {
                        board: replace_ship(self.board, t, n, self.turn.player),
                        ..self
                    }.advance(),
                ),
                None => None,
            }
        } else {
            None
        }
    }

    /// A sacrifice, in the action phase, gives the player's ship `t` back to
    /// the stock for as many actions of its colour as its size tells: one
    /// for a small ship, three for a large one. Of several equal ships at a
    /// system, only the one with the lowest key is given up.
    pub open spec fn sacrifice(self, t: Key) -> Option<State> {
        if self.moving is None && self.turn.phase is Action && self.own_ship(t)
            && !self.has_lower_twin(t, true) {
            Some(
                State {
                    board: remove_ship(self.board, t),
                    turn: Turn {
                        player: self.turn.player,
                        phase: Phase::Sacrifice(
                            (size_of(t as int).index() + 1) as u8,
                            Ability::of(color_of(t as int)),
                        ),
                    },
                    ..self
                },
            )
        } else {
            None
        }
    }

    /// A departure names the player's ship `t` as the one that travels; the
    /// turn does not move on. The player needs yellow at the system; of
    /// several equal ships there, only the one with the lowest key leaves.
    pub open spec fn move_init(self, t: Key) -> Option<State> {
        let p = parent_of(self.board, t as int);
        if self.moving is None && self.phase_allows(Ability::Move) && self.own_ship(t)
            && self.has_color(p, Ability::Move) && !self.has_lower_twin(t, true) {
            Some(State { moving: Some(t), ..self })
        } else {
            None
        }
    }

    /// An arrival takes the travelling ship out of its ring and puts it
    /// behind the entry of the ring at the system `to`, or makes it the
    /// entry where there is none. The two systems must be connected.
    pub open spec fn move_finish(self, to: Key) -> Option<State> {
        match self.moving {
            Some(f) => {
                let from = parent_of(self.board, f as int);
                if to < 36 && self.board[to as int].hosts() && connected(self.board, from, to) {
                    let b1 = remove_ship(self.board, f);
                    let b2 = match b1[to as int].child() {
                        Some(c) => insert_after(b1, c, f, self.turn.player),
                        None => place_alone(b1, to, f, self.turn.player),
                    };
                    Some(State { board: b2, moving: None, ..self }.advance())
                } else {
                    None
                }
            },
            None => None,
        }
    }

    /// A selection, during setup, takes the lowest unused piece of a size
    /// and colour: as the first star of the player's home, then as its
    /// second star, then as the player's first ship there.
    pub open spec fn select(self, size: Size, color: Color) -> Option<State> {
        let lo = first_key(size, color);
        let me = self.turn.player;
        if self.moving is None && self.turn.in_setup() {
            match first_empty(self.board, lo, lo + 3) {
                Some(n) => match self.turn.phase {
                    Phase::Star1 => Some(
                        State { board: place_first(self.board, n), ..self }.with_home(
                            me,
                            n,
                        ).advance(),
                    ),
                    Phase::Star2 => match self.home(me) {
                        Some(s) => Some(
                            State { board: place_second(self.board, s, n), ..self }.advance(),
                        ),
                        None => None,
                    },
                    _ => match self.home(me) {
                        Some(s) => Some(
                            State { board: place_alone(self.board, s, n, me), ..self }.advance(),
                        ),
                        None => None,
                    },
                },
                None => None,
            }
        } else {
            None
        }
    }

    /// A pass, in the action phase, hands the turn to the other player.
    pub open spec fn pass(self) -> Option<State> {
        if self.moving is None && self.turn.phase is Action {
            Some(
                State {
                    turn: Turn { player: self.turn.player.other(), phase: Phase::Action },
                    ..self
                }.sweep_from(0),
            )
        } else {
            None
        }
    }

    /// The position that follows when the move is accepted; nothing when it
    /// is refused.
    pub open spec fn step(self, m: Move) -> Option<State> {
        match m {
            Move::Attack(t) => self.attack(t),
            Move::Construct(t) => self.construct(t),
            Move::Transform(t, color) => self.transform(t, color),
            Move::Sacrifice(t) => self.sacrifice(t),
            Move::MoveInit(t) => self.move_init(t),
            Move::MoveFinish(to) => self.move_finish(to),
            Move::Select(size, color) => self.select(size, color),
            Move::Catastrophe(t) => self.catastrophe(t),
            Move::Pass => self.pass(),
        }
    }
}

/// The moves among the first `n` of the table that the rules accept in a
/// position, in the order of the table.
pub open spec fn legal_below(s: State, n: int) -> Seq<Move>
    decreases n,
{
    if n <= 0 {
        Seq::empty()
    } else if s.step(move_at(n - 1)) is Some {
        legal_below(s, n - 1).push(move_at(n - 1))
    } else {
        legal_below(s, n - 1)
    }
}

} // verus!
