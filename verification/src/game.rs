//! The game: a board, the stock and the turn, advanced one move at a time.

use vstd::prelude::*;
use vstd::pervasive::unreached;
use arrayvec::ArrayVec;
use crate::bank::{cell_of, Bank};
use crate::edits::{
    drop_second, insert_after, lemma_drop_second, lemma_insert_after, lemma_place_alone,
    lemma_place_first, lemma_place_second, lemma_prev, lemma_promote, lemma_remove_keeps_others,
    lemma_remove_ship, lemma_replace_ship, lemma_scatter, lemma_set_owner, place_alone,
    place_second, prev_of, promote, remove_ship, replace_ship, scatter,
};
use crate::keylist::{held, keys_at, keys_len, keys_new, keys_push};
use crate::kinds::{
    color_of, first_key, key_color, key_size, size_of, Ability, Color, Key, KeyMaybe, Player,
    Size,
};
use crate::moves::{move_at, Move, MOVE_COUNT};
use crate::position::{lemma_first_empty, Board, KeyRange, Piece};
use crate::rings::{
    is_ring, lemma_ring_at, lemma_ring_from, lemma_ring_index, next_of, owner_of, parent_of,
    partner_of, ship_of, slot_ok, wf_board,
};
use crate::rules::{
    blast, legal_below, lemma_ships_of_color, remove_each, ships_of_color, star_sizes, State,
};
use crate::turn::{Phase, Turn};

verus! {

/// One if the piece `k` is on the board, zero if it is in the stock.
pub open spec fn occupied(b: Seq<Piece>, k: int) -> int {
    if b[k] is Empty {
        0
    } else {
        1
    }
}

/// Number of pieces of a cell that are on the board; the cell `color * 3 +
/// size` holds the keys `3 * cell`, `3 * cell + 1` and `3 * cell + 2`.
pub open spec fn in_play(b: Seq<Piece>, cell: int) -> int {
    occupied(b, 3 * cell) + occupied(b, 3 * cell + 1) + occupied(b, 3 * cell + 2)
}

/// Of every size and colour, the pieces in the stock and those on the board
/// are three together.
pub open spec fn conserved(b: Seq<Piece>, bank: Bank) -> bool {
    forall|cell: int| 0 <= cell < 12 ==> #[trigger] bank.count_at(cell) + in_play(b, cell) == 3
}

/// The cell of a key is the key divided by three.
pub proof fn lemma_cell_of_key(k: int)
    requires
        0 <= k < 36,
    ensures
        cell_of(size_of(k), color_of(k)) == k / 3,
        first_key(size_of(k), color_of(k)) == 3 * (k / 3),
{
}

/// Puts the piece `n` of the stock on the board as `piece`.
fn place(board: &mut Board, bank: &mut Bank, n: Key, piece: Piece)
    requires
        n < 36,
        old(board)@[n as int] is Empty,
        !(piece is Empty),
        old(bank).wf(),
        conserved(old(board)@, *old(bank)),
    ensures
        final(board)@ == old(board)@.update(n as int, piece),
        final(bank).wf(),
        conserved(final(board)@, *final(bank)),
{
    let ghost cell = n as int / 3;
    proof {
        lemma_cell_of_key(n as int);
        old(board).lemma_len();
        assert(old(bank).count_at(cell) + in_play(old(board)@, cell) == 3);
    }
    let taken = bank.get(key_size(n), key_color(n));
    assert(taken.is_some());
    board.set(n, piece);
    proof {
        assert forall|c: int| 0 <= c < 12 implies #[trigger] bank.count_at(c) + in_play(
            board@,
            c,
        ) == 3 by {
            assert(old(bank).count_at(c) + in_play(old(board)@, c) == 3);
        }
    }
}

/// Takes the piece `k` off the board and back into the stock.
fn unplace(board: &mut Board, bank: &mut Bank, k: Key)
    requires
        k < 36,
        !(old(board)@[k as int] is Empty),
        old(bank).wf(),
        conserved(old(board)@, *old(bank)),
    ensures
        final(board)@ == old(board)@.update(k as int, Piece::Empty),
        final(bank).wf(),
        conserved(final(board)@, *final(bank)),
{
    let ghost cell = k as int / 3;
    proof {
        lemma_cell_of_key(k as int);
        old(board).lemma_len();
        assert(old(bank).count_at(cell) + in_play(old(board)@, cell) == 3);
    }
    let given = bank.put(key_size(k), key_color(k));
    assert(given.is_ok());
    board.set(k, Piece::Empty);
    proof {
        assert forall|c: int| 0 <= c < 12 implies #[trigger] bank.count_at(c) + in_play(
            board@,
            c,
        ) == 3 by {
            assert(old(bank).count_at(c) + in_play(old(board)@, c) == 3);
        }
    }
}

/// Changes what the piece `k` is on the board; it stays on the board.
fn relink(board: &mut Board, bank: &Bank, k: Key, piece: Piece)
    requires
        k < 36,
        !(old(board)@[k as int] is Empty),
        !(piece is Empty),
        conserved(old(board)@, *bank),
    ensures
        final(board)@ == old(board)@.update(k as int, piece),
        conserved(final(board)@, *bank),
{
    proof {
        old(board).lemma_len();
    }
    board.set(k, piece);
    proof {
        assert forall|c: int| 0 <= c < 12 implies #[trigger] bank.count_at(c) + in_play(
            board@,
            c,
        ) == 3 by {
            assert(bank.count_at(c) + in_play(old(board)@, c) == 3);
        }
    }
}

/// How a game has answered a move: accepted with the position that the
/// rules give, or refused and left as it was.
pub open spec fn stepped(before: Game, after: Game, outcome: Option<State>, ok: bool) -> bool {
    match outcome {
        Some(s) => ok && after@ == s,
        None => !ok && after == before,
    }
}

/// A game in progress.
#[derive(Clone, Copy, Debug)]
pub struct Game {
    board: Board,
    bank: Bank,
    turn: Turn,
    moving_piece: KeyMaybe,
    repetition_count: u8,
    wstar: KeyMaybe,
    bstar: KeyMaybe,
}

impl View for Game {
    type V = State;

    closed spec fn view(&self) -> State {
        State {
            board: self.board@,
            turn: self.turn,
            moving: self.moving_piece@,
            repetition: self.repetition_count,
            wstar: self.wstar@,
            bstar: self.bstar@,
        }
    }
}

impl Game {
    /// The stock of unused pieces.
    pub closed spec fn stock(&self) -> Bank {
        self.bank
    }

    /// The position is one that play can reach, and the stock holds exactly
    /// the pieces that are not on the board.
    pub open spec fn wf(&self) -> bool {
        &&& self@.wf()
        &&& self.stock().wf()
        &&& conserved(self@.board, self.stock())
    }

    /// The game before the first move: an empty board, the full stock, and
    /// White about to choose a first star.
    pub fn new() -> (g: Game)
        ensures
            g.wf(),
            forall|size: Size, color: Color| #[trigger] g.stock().count(size, color) == 3,
            g@ == (State {
                board: Seq::new(36, |i: int| Piece::Empty),
                turn: Turn { player: Player::White, phase: Phase::Star1 },
                moving: None,
                repetition: 0,
                wstar: None,
                bstar: None,
            }),
    {
        let g = Game {
            board: Board::new(),
            bank: Bank::new(),
            turn: Turn::initial(),
            moving_piece: KeyMaybe::none(),
            repetition_count: 0,
            wstar: KeyMaybe::none(),
            bstar: KeyMaybe::none(),
        };
        proof {
            let b = g.board@;
            assert forall|k: int| 0 <= k < 36 implies #[trigger] slot_ok(b, k) by {}
            assert(wf_board(b));
        }
        g
    }

    /// What the slot of the piece `k` holds.
    pub fn piece(&self, k: Key) -> (p: Piece)
        requires
            k < 36,
        ensures
            p == self@.board[k as int],
    {
        self.board.get(k)
    }

    pub fn turn(&self) -> (t: Turn)
        ensures
            t == self@.turn,
    {
        self.turn
    }

    /// The ship that has been chosen to travel and has not arrived yet.
    pub fn moving_piece(&self) -> (m: Option<Key>)
        ensures
            m == self@.moving,
    {
        self.moving_piece.get()
    }

    pub fn repetition_count(&self) -> (n: u8)
        ensures
            n == self@.repetition,
    {
        self.repetition_count
    }

    /// The home star that a player chose during setup.
    pub fn home_star(&self, who: Player) -> (s: Option<Key>)
        ensures
            s == self@.home(who),
    {
        match who {
            Player::White => self.wstar.get(),
            Player::Black => self.bstar.get(),
        }
    }

    /// How many pieces of a size and colour are left in the stock.
    pub fn remaining(&self, size: Size, color: Color) -> (n: u8)
        ensures
            n == self.stock().count(size, color),
    {
        self.bank.remaining(size, color)
    }

    /// Whether the player to move has, at system `p`, a ship of the colour
    /// that grants `ability`; `sibs` lists the ships at `p`.
    fn friend_grants(&self, p: Key, sibs: &Vec<Key>, ability: Ability) -> (r: bool)
        requires
            is_ring(self@.board, p as int, sibs@),
        ensures
            r == (exists|k: int| #[trigger]
                self@.friend_at(p, k) && Ability::of(color_of(k)) == ability),
    {
        let mut i: usize = 0;
        while i < sibs.len()
            invariant
                i <= sibs.len(),
                is_ring(self@.board, p as int, sibs@),
                forall|j: int|
                    0 <= j < i ==> !(#[trigger] self@.friend_at(p, sibs@[j] as int) && Ability::of(
                        color_of(sibs@[j] as int),
                    ) == ability),
            decreases sibs.len() - i,
        {
            let k = sibs[i];
            proof {
                lemma_ring_at(self@.board, p as int, sibs@, i as int);
            }
            match self.board.get(k) {
                Piece::Ship { owner, .. } => {
                    if owner == self.turn.player && Ability::for_color(key_color(k)) == ability {
                        assert(self@.friend_at(p, k as int));
                        return true;
                    }
                },
                _ => {},
            }
            i += 1;
        }
        proof {
            assert forall|k: int| #[trigger]
                self@.friend_at(p, k) implies Ability::of(color_of(k)) != ability by {
                let j = lemma_ring_index(self@.board, p as int, sibs@, k as Key);
                assert(!(self@.friend_at(p, sibs@[j] as int) && Ability::of(
                    color_of(sibs@[j] as int),
                ) == ability));
            }
        }
        false
    }

    /// Whether the player to move has, at system `p`, a ship at least as
    /// large as the piece `t`; `sibs` lists the ships at `p`.
    fn overpowers(&self, p: Key, t: Key, sibs: &Vec<Key>) -> (r: bool)
        requires
            is_ring(self@.board, p as int, sibs@),
        ensures
            r == self@.can_overpower(p, t),
    {
        let need = key_size(t).to_index();
        if need == 0 {
            return true;
        }
        let mut i: usize = 0;
        while i < sibs.len()
            invariant
                i <= sibs.len(),
                need == size_of(t as int).index(),
                need != 0,
                is_ring(self@.board, p as int, sibs@),
                forall|j: int|
                    0 <= j < i ==> !(#[trigger] self@.friend_at(p, sibs@[j] as int) && size_of(
                        sibs@[j] as int,
                    ).index() >= need),
            decreases sibs.len() - i,
        {
            let k = sibs[i];
            proof {
                lemma_ring_at(self@.board, p as int, sibs@, i as int);
            }
            match self.board.get(k) {
                Piece::Ship { owner, .. } => {
                    if owner == self.turn.player && key_size(k).to_index() >= need {
                        assert(self@.friend_at(p, k as int));
                        return true;
                    }
                },
                _ => {},
            }
            i += 1;
        }
        proof {
            assert forall|k: int| #[trigger] self@.friend_at(p, k) implies size_of(k).index()
                < need by {
                let j = lemma_ring_index(self@.board, p as int, sibs@, k as Key);
                assert(!(self@.friend_at(p, sibs@[j] as int) && size_of(sibs@[j] as int).index()
                    >= need));
            }
        }
        false
    }

    /// Whether a ship with a lower key stands in for the ship `t`: one of
    /// the same owner, system and colour, and, if `sized`, the same size;
    /// `sibs` lists the ships at the system of `t`.
    fn lower_twin(&self, t: Key, sibs: &Vec<Key>, sized: bool) -> (r: bool)
        requires
            t < 36,
            self@.board[t as int] is Ship,
            is_ring(self@.board, parent_of(self@.board, t as int) as int, sibs@),
        ensures
            r == self@.has_lower_twin(t, sized),
    {
        let ghost b = self@.board;
        let ghost p = parent_of(b, t as int) as int;
        let who = match self.board.get(t) {
            Piece::Ship { owner, .. } => owner,
            _ => unreached(),
        };
        let mut i: usize = 0;
        while i < sibs.len()
            invariant
                i <= sibs.len(),
                t < 36,
                b == self@.board,
                p == parent_of(b, t as int),
                who == owner_of(b, t as int),
                is_ring(b, p, sibs@),
                forall|j: int|
                    #![trigger sibs@[j]]
                    0 <= j < i ==> !(sibs@[j] < t && owner_of(b, sibs@[j] as int) == who
                        && color_of(sibs@[j] as int) == color_of(t as int) && (sized ==> size_of(
                        sibs@[j] as int,
                    ) == size_of(t as int))),
            decreases sibs.len() - i,
        {
            let k = sibs[i];
            proof {
                lemma_ring_at(b, p, sibs@, i as int);
            }
            match self.board.get(k) {
                Piece::Ship { owner, .. } => {
                    if k < t && owner == who && key_color(k) == key_color(t) && (!sized
                        || key_size(k) == key_size(t)) {
                        assert(ship_of(b, k as int, p));
                        return true;
                    }
                },
                _ => {},
            }
            i += 1;
        }
        proof {
            assert forall|k: int|
                0 <= k < t && #[trigger] ship_of(b, k, p) && owner_of(b, k) == who && color_of(k)
                    == color_of(t as int) implies !(sized ==> size_of(k) == size_of(
                t as int,
            )) by {
                let j = lemma_ring_index(b, p, sibs@, k as Key);
                assert(sibs@[j] == k);
            }
        }
        false
    }

    /// Tries the catastrophe at every key in ascending order.
    fn force_catastrophes(&mut self)
        requires
            old(self).wf(),
        ensures
            final(self).wf(),
            final(self)@ == old(self)@.sweep_from(0),
    {
        let mut k: u8 = 0;
        while k < 36
            invariant
                k <= 36,
                self.wf(),
                self@.sweep_from(k as int) == old(self)@.sweep_from(0),
            decreases 36 - k,
        {
            let _ = self.process_catastrophe(k);
            k += 1;
        }
    }

    /// Moves the turn on; when the other player is to move, every due
    /// catastrophe takes place first.
    fn advance(&mut self)
        requires
            (State { turn: old(self)@.turn.successor(), ..old(self)@ }).wf(),
            old(self).stock().wf(),
            conserved(old(self)@.board, old(self).stock()),
        ensures
            final(self).wf(),
            final(self)@ == old(self)@.advance(),
    {
        let next_turn = self.turn.next();
        let flips = next_turn.player != self.turn.player;
        self.turn = next_turn;
        if flips {
            self.force_catastrophes();
        }
    }

    /// The ships of one colour at the system `parent`, by ascending key.
    fn gather(&self, parent: Key, color: Color) -> (list: ArrayVec<Key, 36>)
        ensures
            held(list) == ships_of_color(self@.board, parent as int, color, 36),
    {
        let ghost b = self@.board;
        let mut list = keys_new();
        let mut k: u8 = 0;
        while k < 36
            invariant
                k <= 36,
                b == self@.board,
                held(list) == ships_of_color(b, parent as int, color, k as int),
                held(list).len() <= k,
            decreases 36 - k,
        {
            let here = match self.board.get(k) {
                Piece::Ship { parent: at, .. } => at == parent && key_color(k) == color,
                _ => false,
            };
            if here {
                keys_push(&mut list, k);
            }
            k += 1;
        }
        list
    }

    /// Removes the ships of `list`, which stand at the system `parent`, one
    /// after the other.
    fn remove_ships(&mut self, list: &ArrayVec<Key, 36>, parent: Key)
        requires
            wf_board(old(self)@.board),
            old(self).stock().wf(),
            conserved(old(self)@.board, old(self).stock()),
            parent < 36,
            old(self)@.board[parent as int].hosts(),
            forall|i: int|
                #![trigger held(*list)[i]]
                0 <= i < held(*list).len() ==> ship_of(
                    old(self)@.board,
                    held(*list)[i] as int,
                    parent as int,
                ),
            forall|i: int, j: int|
                0 <= i < j < held(*list).len() ==> held(*list)[i] != held(*list)[j],
        ensures
            final(self)@ == (State {
                board: remove_each(old(self)@.board, held(*list)),
                ..old(self)@
            }),
            wf_board(final(self)@.board),
            final(self).stock().wf(),
            conserved(final(self)@.board, final(self).stock()),
            forall|k: int|
                0 <= k < 36 && k != parent && !(old(self)@.board[k] is Ship)
                    ==> #[trigger] final(self)@.board[k] == old(self)@.board[k],
            forall|k: int|
                0 <= k < 36 && #[trigger] final(self)@.board[k] is Ship ==> old(self)@.board[k]
                    == final(self)@.board[k] || ship_of(old(self)@.board, k, parent as int),
            partner_of(final(self)@.board, parent as int) == partner_of(
                old(self)@.board,
                parent as int,
            ),
            final(self)@.board[parent as int].hosts() || (old(self)@.board[parent as int] is Star
                && final(self)@.board[parent as int] is Empty),
            final(self)@.board[parent as int] is Star ==> old(self)@.board[parent as int] is Star,
    {
        let ghost b0 = self@.board;
        let ghost ks = held(*list);
        let n = keys_len(list);
        let mut j: usize = 0;
        proof {
            assert(ks.skip(0) =~= ks);
        }
        while j < n
            invariant
                j <= n,
                n == ks.len(),
                ks == held(*list),
                parent < 36,
                wf_board(self@.board),
                self.stock().wf(),
                conserved(self@.board, self.stock()),
                self@ == (State { board: self@.board, ..old(self)@ }),
                b0 == old(self)@.board,
                remove_each(self@.board, ks.skip(j as int)) == remove_each(b0, ks),
                forall|i: int|
                    #![trigger ks[i]]
                    j <= i < ks.len() ==> ship_of(self@.board, ks[i] as int, parent as int),
                forall|i: int, j: int| 0 <= i < j < ks.len() ==> ks[i] != ks[j],
                forall|k: int|
                    0 <= k < 36 && k != parent && !(b0[k] is Ship) ==> #[trigger] self@.board[k]
                        == b0[k],
                forall|k: int|
                    0 <= k < 36 && #[trigger] self@.board[k] is Ship ==> b0[k] == self@.board[k]
                        || ship_of(b0, k, parent as int),
                partner_of(self@.board, parent as int) == partner_of(b0, parent as int),
                self@.board[parent as int].hosts() || (b0[parent as int] is Star
                    && self@.board[parent as int] is Empty),
                self@.board[parent as int] is Star ==> b0[parent as int] is Star,
            decreases n - j,
        {
            let ghost cur = self@.board;
            let k = keys_at(list, j);
            assert(ship_of(cur, ks[j as int] as int, parent as int));
            let next = match self.board.get(k) {
                Piece::Ship { next_sibling, .. } => next_sibling,
                _ => unreached(),
            };
            let sibs = self.board.sibling_iter(k);
            let prev = sibs[sibs.len() - 1];
            proof {
                lemma_prev(cur, k, sibs@);
                lemma_remove_ship(cur, k);
                assert(ks.skip(j as int).drop_first() =~= ks.skip(j as int + 1));
                assert(ks.skip(j as int)[0] == k);
            }
            self.remove_ship_and_maybe_star(k, prev, next, parent);
            proof {
                let after = self@.board;
                assert forall|i: int| #![trigger ks[i]] j + 1 <= i < ks.len() implies ship_of(
                    after,
                    ks[i] as int,
                    parent as int,
                ) by {
                    assert(ship_of(cur, ks[i] as int, parent as int));
                    assert(ks[i] != ks[j as int]);
                    assert(after[ks[i] as int] is Ship);
                }
                assert forall|q: int|
                    0 <= q < 36 && #[trigger] after[q] is Ship implies b0[q] == after[q] || ship_of(
                    b0,
                    q,
                    parent as int,
                ) by {
                    assert(cur[q] is Ship);
                    if parent_of(cur, q) != parent {
                        lemma_remove_keeps_others(cur, k, q);
                    }
                }
            }
            j += 1;
        }
    }

    /// Takes the system `p` off the board: its stars and every ship there.
    fn scatter_system(&mut self, p: Key)
        requires
            p < 36,
            old(self).stock().wf(),
            conserved(old(self)@.board, old(self).stock()),
        ensures
            final(self)@ == (State { board: scatter(old(self)@.board, p), ..old(self)@ }),
            final(self).stock().wf(),
            conserved(final(self)@.board, final(self).stock()),
    {
        let ghost b1 = self@.board;
        proof {
            self.board.lemma_len();
        }
        let partner = match self.board.get(p) {
            Piece::BinaryFirst { sibling, .. } => sibling,
            _ => None,
        };
        let mut k: u8 = 0;
        while k < 36
            invariant
                k <= 36,
                p < 36,
                b1.len() == 36,
                partner == partner_of(b1, p as int),
                self.stock().wf(),
                conserved(self@.board, self.stock()),
                self@ == (State { board: self@.board, ..old(self)@ }),
                self@.board.len() == 36,
                forall|j: int|
                    0 <= j < 36 ==> #[trigger] self@.board[j] == (if j < k && (j == p || ship_of(
                        b1,
                        j,
                        p as int,
                    ) || partner_of(b1, p as int) == Some(j as Key)) {
                        Piece::Empty
                    } else {
                        b1[j]
                    }),
            decreases 36 - k,
        {
            let piece = self.board.get(k);
            let of_system = match piece {
                Piece::Ship { parent, .. } => parent == p,
                _ => false,
            };
            let is_partner = match partner {
                Some(x) => x == k,
                None => false,
            };
            if k == p || of_system || is_partner {
                if !piece.is_empty() {
                    unplace(&mut self.board, &mut self.bank, k);
                }
            }
            k += 1;
        }
        assert(self@.board =~= scatter(b1, p));
    }

    /// Takes the first star `p` of a binary system off the board and lets
    /// its other half `x` carry the ships.
    fn promote_second(&mut self, p: Key, x: Key)
        requires
            p < 36,
            x < 36,
            p != x,
            old(self)@.board[p as int] is BinaryFirst,
            old(self)@.board[x as int] is BinarySecond,
            old(self).stock().wf(),
            conserved(old(self)@.board, old(self).stock()),
        ensures
            final(self)@ == (State { board: promote(old(self)@.board, p, x), ..old(self)@ }),
            final(self).stock().wf(),
            conserved(final(self)@.board, final(self).stock()),
    {
        let ghost b1 = self@.board;
        proof {
            self.board.lemma_len();
        }
        let child = self.board.get(p).get_child();
        let mut k: u8 = 0;
        while k < 36
            invariant
                k <= 36,
                p < 36,
                x < 36,
                p != x,
                b1.len() == 36,
                b1[p as int] is BinaryFirst,
                b1[x as int] is BinarySecond,
                child == b1[p as int].child(),
                self.stock().wf(),
                conserved(self@.board, self.stock()),
                self@ == (State { board: self@.board, ..old(self)@ }),
                self@.board.len() == 36,
                forall|j: int|
                    0 <= j < 36 ==> #[trigger] self@.board[j] == (if j < k {
                        promote(b1, p, x)[j]
                    } else {
                        b1[j]
                    }),
            decreases 36 - k,
        {
            if k == p {
                unplace(&mut self.board, &mut self.bank, k);
            } else if k == x {
                relink(
                    &mut self.board,
                    &self.bank,
                    k,
                    Piece::BinaryFirst { child, sibling: None },
                );
            } else {
                match self.board.get(k) {
                    Piece::Ship { parent, next_sibling, owner } => {
                        if parent == p {
                            relink(
                                &mut self.board,
                                &self.bank,
                                k,
                                Piece::Ship { parent: x, next_sibling, owner },
                            );
                        }
                    },
                    _ => {},
                }
            }
            k += 1;
        }
        assert(self@.board =~= promote(b1, p, x));
    }

    /// Takes the second star `x` of the binary system `p` off the board.
    fn drop_second_star(&mut self, p: Key, x: Key)
        requires
            p < 36,
            x < 36,
            p != x,
            old(self)@.board[p as int] is BinaryFirst,
            old(self)@.board[x as int] is BinarySecond,
            old(self).stock().wf(),
            conserved(old(self)@.board, old(self).stock()),
        ensures
            final(self)@ == (State { board: drop_second(old(self)@.board, p, x), ..old(self)@ }),
            final(self).stock().wf(),
            conserved(final(self)@.board, final(self).stock()),
    {
        let ghost b1 = self@.board;
        proof {
            self.board.lemma_len();
        }
        let child = self.board.get(p).get_child();
        unplace(&mut self.board, &mut self.bank, x);
        relink(&mut self.board, &self.bank, p, Piece::BinaryFirst { child, sibling: None });
        assert(self@.board =~= drop_second(b1, p, x));
    }

    fn process_catastrophe(&mut self, shkey: Key) -> (ok: bool)
        requires
            old(self).wf(),
        ensures
            final(self).wf(),
            stepped(*old(self), *final(self), old(self)@.catastrophe(shkey), ok),
    {
        if shkey >= 36 {
            return false;
        }
        let parent = match self.board.get(shkey) {
            Piece::Ship { parent, .. } => parent,
            _ => {
                return false;
            },
        };
        let ghost b = self@.board;
        proof {
            assert(slot_ok(b, shkey as int));
            assert(slot_ok(b, parent as int));
            lemma_ships_of_color(b, parent as int, color_of(shkey as int), 36);
        }
        let color = key_color(shkey);
        let partner = match self.board.get(parent) {
            Piece::BinaryFirst { sibling, .. } => sibling,
            _ => None,
        };
        let list = self.gather(parent, color);
        let p_hit = key_color(parent) == color;
        let x_hit = match partner {
            Some(x) => key_color(x) == color,
            None => false,
        };
        let mut count: usize = keys_len(&list);
        if p_hit {
            count += 1;
        }
        if x_hit {
            count += 1;
        }
        if count < 4 {
            return false;
        }
        self.remove_ships(&list, parent);
        let ghost b1 = self@.board;
        match partner {
            Some(x) => {
                if p_hit && x_hit {
                    proof {
                        lemma_scatter(b1, parent);
                    }
                    self.scatter_system(parent);
                } else if p_hit {
                    proof {
                        lemma_promote(b1, parent, x);
                    }
                    self.promote_second(parent, x);
                } else if x_hit {
                    proof {
                        lemma_drop_second(b1, parent, x);
                    }
                    self.drop_second_star(parent, x);
                }
            },
            None => {
                if p_hit {
                    proof {
                        lemma_scatter(b1, parent);
                    }
                    self.scatter_system(parent);
                }
            },
        }
        assert(self@.board == blast(b, shkey));
        match self.moving_piece.get() {
            Some(f) => {
                match self.board.get(f) {
                    Piece::Ship { .. } => {},
                    _ => {
                        self.moving_piece = KeyMaybe::none();
                    },
                }
            },
            None => {},
        }
        proof {
            let me = old(self)@.turn.player;
            if old(self)@.turn.phase is Star2 || old(self)@.turn.phase is Ship {
                let s = old(self)@.home(me)->0;
                assert(ship_of(b, shkey as int, parent as int));
                assert(s != parent);
                assert(b1[s as int] == b[s as int]);
                assert(self@.board[s as int] == b[s as int]);
            }
        }
        true
    }

    fn process_attack(&mut self, tkey: Key) -> (ok: bool)
        requires
            old(self).wf(),
        ensures
            final(self).wf(),
            stepped(*old(self), *final(self), old(self)@.attack(tkey), ok),
    {
        if self.moving_piece.is_some() {
            return false;
        }
        let by_phase = match self.turn.phase {
            Phase::Action => false,
            Phase::Sacrifice(_, Ability::Attack) => true,
            _ => {
                return false;
            },
        };
        if tkey >= 36 {
            return false;
        }
        let (parent, next_sibling) = match self.board.get(tkey) {
            Piece::Ship { parent, next_sibling, owner } => {
                if owner == self.turn.player {
                    return false;
                }
                (parent, next_sibling)
            },
            _ => {
                return false;
            },
        };
        let sibs = self.board.sibling_iter(tkey);
        let has_color = by_phase || key_color(parent) == Color::Red || self.friend_grants(
            parent,
            &sibs,
            Ability::Attack,
        );
        if !has_color || !self.overpowers(parent, tkey, &sibs) || self.lower_twin(
            tkey,
            &sibs,
            true,
        ) {
            return false;
        }
        proof {
            lemma_set_owner(self@.board, tkey, self.turn.player);
        }
        relink(
            &mut self.board,
            &self.bank,
            tkey,
            Piece::Ship { parent, next_sibling, owner: self.turn.player },
        );
        self.advance();
        true
    }

    fn process_construct(&mut self, tkey: Key) -> (ok: bool)
        requires
            old(self).wf(),
        ensures
            final(self).wf(),
            stepped(*old(self), *final(self), old(self)@.construct(tkey), ok),
    {
        if self.moving_piece.is_some() {
            return false;
        }
        let by_phase = match self.turn.phase {
            Phase::Action => false,
            Phase::Sacrifice(_, Ability::Construct) => true,
            _ => {
                return false;
            },
        };
        if tkey >= 36 {
            return false;
        }
        let (parent, next_sibling) = match self.board.get(tkey) {
            Piece::Ship { parent, next_sibling, owner } => {
                if owner != self.turn.player {
                    return false;
                }
                (parent, next_sibling)
            },
            _ => {
                return false;
            },
        };
        let sibs = self.board.sibling_iter(tkey);
        let has_color = by_phase || key_color(parent) == Color::Green || self.friend_grants(
            parent,
            &sibs,
            Ability::Construct,
        );
        if !has_color || self.lower_twin(tkey, &sibs, false) {
            return false;
        }
        let range = KeyRange::with_color(key_color(tkey));
        proof {
            lemma_first_empty(self@.board, range.next as int, range.end as int);
        }
        let nkey = match self.board.find_empty(range) {
            Some(v) => v,
            None => {
                return false;
            },
        };
        proof {
            lemma_insert_after(self@.board, tkey, nkey, self.turn.player);
        }
        relink(
            &mut self.board,
            &self.bank,
            tkey,
            Piece::Ship { parent, next_sibling: nkey, owner: self.turn.player },
        );
        place(
            &mut self.board,
            &mut self.bank,
            nkey,
            Piece::Ship { parent, next_sibling, owner: self.turn.player },
        );
        self.advance();
        true
    }

    /// Takes the ship `shkey` out of its ring; `shprvkey` is the ship it
    /// follows, `shnxtkey` its follower and `stkey` its system. A single star
    /// that loses its last ship leaves the board with it.
    fn remove_ship_and_maybe_star(&mut self, shkey: Key, shprvkey: Key, shnxtkey: Key, stkey: Key)
        requires
            wf_board(old(self)@.board),
            old(self).stock().wf(),
            conserved(old(self)@.board, old(self).stock()),
            shkey < 36,
            old(self)@.board[shkey as int] is Ship,
            shprvkey == prev_of(old(self)@.board, shkey),
            shnxtkey == next_of(old(self)@.board, shkey as int),
            stkey == parent_of(old(self)@.board, shkey as int),
        ensures
            final(self)@ == (State { board: remove_ship(old(self)@.board, shkey), ..old(self)@ }),
            wf_board(final(self)@.board),
            final(self).stock().wf(),
            conserved(final(self)@.board, final(self).stock()),
    {
        let ghost b = self@.board;
        proof {
            let r = lemma_ring_from(b, shkey as int);
            lemma_prev(b, shkey, r);
            lemma_ring_at(b, stkey as int, r, r.len() - 1);
            lemma_remove_ship(b, shkey);
            assert(slot_ok(b, shkey as int));
        }
        let star = self.board.get(stkey);
        unplace(&mut self.board, &mut self.bank, shkey);
        if shnxtkey == shkey {
            match star {
                Piece::Star { .. } => {
                    unplace(&mut self.board, &mut self.bank, stkey);
                },
                _ => {
                    relink(&mut self.board, &self.bank, stkey, star.set_child(None));
                },
            }
        } else {
            let prev = self.board.get(shprvkey);
            relink(&mut self.board, &self.bank, shprvkey, prev.set_next(shnxtkey));
            let points_here = match star.get_child() {
                Some(c) => c == shkey,
                None => false,
            };
            if points_here {
                relink(&mut self.board, &self.bank, stkey, star.set_child(Some(shnxtkey)));
            } else {
                relink(&mut self.board, &self.bank, stkey, star);
            }
        }
        assert(self.board@ =~= remove_ship(b, shkey));
    }

    fn process_transform(&mut self, tkey: Key, tcolor: Color) -> (ok: bool)
        requires
            old(self).wf(),
        ensures
            final(self).wf(),
            stepped(*old(self), *final(self), old(self)@.transform(tkey, tcolor), ok),
    {
        if self.moving_piece.is_some() {
            return false;
        }
        let by_phase = match self.turn.phase {
            Phase::Action => false,
            Phase::Sacrifice(_, Ability::Transform) => true,
            _ => {
                return false;
            },
        };
        if tkey >= 36 {
            return false;
        }
        let (parent, next_sibling) = match self.board.get(tkey) {
            Piece::Ship { parent, next_sibling, owner } => {
                if owner != self.turn.player {
                    return false;
                }
                (parent, next_sibling)
            },
            _ => {
                return false;
            },
        };
        let sibs = self.board.sibling_iter(tkey);
        let has_color = by_phase || key_color(parent) == Color::Blue || self.friend_grants(
            parent,
            &sibs,
            Ability::Transform,
        );
        if !has_color || self.lower_twin(tkey, &sibs, true) {
            return false;
        }
        let range = KeyRange::with_color_and_size(tcolor, key_size(tkey));
        proof {
            lemma_first_empty(self@.board, range.next as int, range.end as int);
        }
        let nkey = match self.board.find_empty(range) {
            Some(v) => v,
            None => {
                return false;
            },
        };
        let ghost b = self@.board;
        let pkey = sibs[sibs.len() - 1];
        proof {
            lemma_prev(b, tkey, sibs@);
            lemma_ring_at(b, parent as int, sibs@, sibs@.len() - 1);
            lemma_replace_ship(b, tkey, nkey, self.turn.player);
            assert(slot_ok(b, tkey as int));
        }
        let star = self.board.get(parent);
        let points_here = match star.get_child() {
            Some(c) => c == tkey,
            None => false,
        };
        let new_star = if points_here {
            star.set_child(Some(nkey))
        } else {
            star
        };
        unplace(&mut self.board, &mut self.bank, tkey);
        if next_sibling == tkey {
            place(
                &mut self.board,
                &mut self.bank,
                nkey,
                Piece::Ship { parent, next_sibling: nkey, owner: self.turn.player },
            );
        } else {
            let prev = self.board.get(pkey);
            relink(&mut self.board, &self.bank, pkey, prev.set_next(nkey));
            place(
                &mut self.board,
                &mut self.bank,
                nkey,
                Piece::Ship { parent, next_sibling, owner: self.turn.player },
            );
        }
        relink(&mut self.board, &self.bank, parent, new_star);
        assert(self.board@ =~= replace_ship(b, tkey, nkey, self.turn.player));
        self.advance();
        true
    }

    fn process_sacrifice(&mut self, tkey: Key) -> (ok: bool)
        requires
            old(self).wf(),
        ensures
            final(self).wf(),
            stepped(*old(self), *final(self), old(self)@.sacrifice(tkey), ok),
    {
        if self.moving_piece.is_some() {
            return false;
        }
        match self.turn.phase {
            Phase::Action => {},
            _ => {
                return false;
            },
        }
        if tkey >= 36 {
            return false;
        }
        let (parent, next_sibling) = match self.board.get(tkey) {
            Piece::Ship { parent, next_sibling, owner } => {
                if owner != self.turn.player {
                    return false;
                }
                (parent, next_sibling)
            },
            _ => {
                return false;
            },
        };
        let sibs = self.board.sibling_iter(tkey);
        if self.lower_twin(tkey, &sibs, true) {
            return false;
        }
        let pkey = sibs[sibs.len() - 1];
        proof {
            lemma_prev(self@.board, tkey, sibs@);
        }
        self.remove_ship_and_maybe_star(tkey, pkey, next_sibling, parent);
        self.turn.phase = Phase::Sacrifice(
            key_size(tkey).sacrifice_turns(),
            Ability::for_color(key_color(tkey)),
        );
        true
    }

    fn process_move_init(&mut self, tkey: Key) -> (ok: bool)
        requires
            old(self).wf(),
        ensures
            final(self).wf(),
            stepped(*old(self), *final(self), old(self)@.move_init(tkey), ok),
    {
        if self.moving_piece.is_some() {
            return false;
        }
        let by_phase = match self.turn.phase {
            Phase::Action => false,
            Phase::Sacrifice(_, Ability::Move) => true,
            _ => {
                return false;
            },
        };
        if tkey >= 36 {
            return false;
        }
        let parent = match self.board.get(tkey) {
            Piece::Ship { parent, owner, .. } => {
                if owner != self.turn.player {
                    return false;
                }
                parent
            },
            _ => {
                return false;
            },
        };
        let sibs = self.board.sibling_iter(tkey);
        let has_color = by_phase || key_color(parent) == Color::Yellow || self.friend_grants(
            parent,
            &sibs,
            Ability::Move,
        );
        if !has_color || self.lower_twin(tkey, &sibs, true) {
            return false;
        }
        self.moving_piece = KeyMaybe::some(tkey);
        true
    }

    /// The two sizes of the system at `tkey`.
    fn get_star_sizes(&self, tkey: Key) -> (r: (Size, Size))
        requires
            tkey < 36,
        ensures
            r == star_sizes(self@.board, tkey),
    {
        match self.board.get(tkey) {
            Piece::BinaryFirst { sibling: Some(skey), .. } => (key_size(tkey), key_size(skey)),
            _ => (key_size(tkey), key_size(tkey)),
        }
    }

    fn process_move_finish(&mut self, tstar_key: Key) -> (ok: bool)
        requires
            old(self).wf(),
        ensures
            final(self).wf(),
            stepped(*old(self), *final(self), old(self)@.move_finish(tstar_key), ok),
    {
        let fkey = match self.moving_piece.get() {
            Some(v) => v,
            None => {
                return false;
            },
        };
        if tstar_key >= 36 {
            return false;
        }
        if !self.board.get(tstar_key).is_star() {
            return false;
        }
        let (fstar_key, fnext) = match self.board.get(fkey) {
            Piece::Ship { parent, next_sibling, .. } => (parent, next_sibling),
            _ => unreached(),
        };
        let ghost b = self@.board;
        proof {
            assert(slot_ok(b, fkey as int));
        }
        let fsizes = self.get_star_sizes(fstar_key);
        let tsizes = self.get_star_sizes(tstar_key);
        if fsizes.0.to_index() == tsizes.0.to_index() || fsizes.0.to_index() == tsizes.1.to_index()
            || fsizes.1.to_index() == tsizes.0.to_index() || fsizes.1.to_index()
            == tsizes.1.to_index() {
            return false;
        }
        let sibs = self.board.sibling_iter(fkey);
        let pkey = sibs[sibs.len() - 1];
        proof {
            lemma_prev(b, fkey, sibs@);
            lemma_remove_ship(b, fkey);
        }
        self.remove_ship_and_maybe_star(fkey, pkey, fnext, fstar_key);
        let ghost b1 = self@.board;
        let me = self.turn.player;
        let tstar = self.board.get(tstar_key);
        match tstar.get_child() {
            Some(tckey) => {
                proof {
                    assert(slot_ok(b1, tstar_key as int));
                    lemma_insert_after(b1, tckey, fkey, me);
                }
                let tcship = self.board.get(tckey);
                let tcnext = match tcship {
                    Piece::Ship { next_sibling, .. } => next_sibling,
                    _ => unreached(),
                };
                relink(&mut self.board, &self.bank, tckey, tcship.set_next(fkey));
                place(
                    &mut self.board,
                    &mut self.bank,
                    fkey,
                    Piece::Ship { parent: tstar_key, next_sibling: tcnext, owner: me },
                );
                assert(self.board@ =~= insert_after(b1, tckey, fkey, me));
            },
            None => {
                proof {
                    lemma_place_alone(b1, tstar_key, fkey, me);
                }
                relink(&mut self.board, &self.bank, tstar_key, tstar.set_child(Some(fkey)));
                place(
                    &mut self.board,
                    &mut self.bank,
                    fkey,
                    Piece::Ship { parent: tstar_key, next_sibling: fkey, owner: me },
                );
                assert(self.board@ =~= place_alone(b1, tstar_key, fkey, me));
            },
        }
        self.moving_piece = KeyMaybe::none();
        self.advance();
        true
    }

    /// Records the home star of a player.
    fn set_star_for(&mut self, player: Player, star: Key)
        requires
            star < 36,
        ensures
            final(self)@ == old(self)@.with_home(player, star),
            final(self).stock() == old(self).stock(),
    {
        match player {
            Player::White => {
                self.wstar = KeyMaybe::some(star);
            },
            Player::Black => {
                self.bstar = KeyMaybe::some(star);
            },
        }
    }

    fn process_select(&mut self, size: Size, color: Color) -> (ok: bool)
        requires
            old(self).wf(),
        ensures
            final(self).wf(),
            stepped(*old(self), *final(self), old(self)@.select(size, color), ok),
    {
        if self.moving_piece.is_some() {
            return false;
        }
        match self.turn.phase {
            Phase::Star1 => {},
            Phase::Star2 => {},
            Phase::Ship => {},
            _ => {
                return false;
            },
        }
        let range = KeyRange::with_color_and_size(color, size);
        proof {
            lemma_first_empty(self@.board, range.next as int, range.end as int);
        }
        let tkey = match self.board.find_empty(range) {
            Some(v) => v,
            None => {
                return false;
            },
        };
        let ghost b = self@.board;
        let me = self.turn.player;
        match self.turn.phase {
            Phase::Star1 => {
                proof {
                    lemma_place_first(b, tkey);
                }
                place(
                    &mut self.board,
                    &mut self.bank,
                    tkey,
                    Piece::BinaryFirst { child: None, sibling: None },
                );
                self.set_star_for(me, tkey);
            },
            Phase::Star2 => {
                let star = match self.home_star(me) {
                    Some(v) => v,
                    None => unreached(),
                };
                proof {
                    lemma_place_second(b, star, tkey);
                }
                place(&mut self.board, &mut self.bank, tkey, Piece::BinarySecond { sibling: star });
                relink(
                    &mut self.board,
                    &self.bank,
                    star,
                    Piece::BinaryFirst { child: None, sibling: Some(tkey) },
                );
                assert(self.board@ =~= place_second(b, star, tkey));
            },
            _ => {
                let star = match self.home_star(me) {
                    Some(v) => v,
                    None => unreached(),
                };
                proof {
                    lemma_place_alone(b, star, tkey, me);
                }
                let first = self.board.get(star);
                relink(&mut self.board, &self.bank, star, first.set_child(Some(tkey)));
                place(
                    &mut self.board,
                    &mut self.bank,
                    tkey,
                    Piece::Ship { parent: star, next_sibling: tkey, owner: me },
                );
                assert(self.board@ =~= place_alone(b, star, tkey, me));
            },
        }
        self.advance();
        true
    }

    fn process_pass(&mut self) -> (ok: bool)
        requires
            old(self).wf(),
        ensures
            final(self).wf(),
            stepped(*old(self), *final(self), old(self)@.pass(), ok),
    {
        if self.moving_piece.is_some() {
            return false;
        }
        match self.turn.phase {
            Phase::Action => {},
            _ => {
                return false;
            },
        }
        self.turn = Turn { player: self.turn.player.inv(), phase: Phase::Action };
        self.force_catastrophes();
        true
    }

    /// Carries out the move if the rules accept it, and says whether they
    /// did; a refused move leaves the game as it was.
    pub fn process_move(&mut self, m: Move) -> (ok: bool)
        requires
            old(self).wf(),
        ensures
            final(self).wf(),
            stepped(*old(self), *final(self), old(self)@.step(m), ok),
    {
        match m {
            Move::Attack(tkey) => self.process_attack(tkey),
            Move::Construct(tkey) => self.process_construct(tkey),
            Move::Transform(tkey, color) => self.process_transform(tkey, color),
            Move::Sacrifice(tkey) => self.process_sacrifice(tkey),
            Move::MoveInit(tkey) => self.process_move_init(tkey),
            Move::MoveFinish(tkey) => self.process_move_finish(tkey),
            Move::Select(size, color) => self.process_select(size, color),
            Move::Catastrophe(tkey) => self.process_catastrophe(tkey),
            Move::Pass => self.process_pass(),
        }
    }

    /// Carries out the move in place `i` of the table of moves.
    pub fn process_move_idx(&mut self, i: usize) -> (ok: bool)
        requires
            old(self).wf(),
            i < MOVE_COUNT,
        ensures
            final(self).wf(),
            stepped(*old(self), *final(self), old(self)@.step(move_at(i as int)), ok),
    {
        self.process_move(Move::at(i))
    }

    /// The moves of the table that the rules accept in this position, in the
    /// order of the table; each is tried on a copy of the game.
    pub fn legal_moves(&self) -> (v: Vec<Move>)
        requires
            self.wf(),
        ensures
            v@ == legal_below(self@, MOVE_COUNT as int),
    {
        let mut v: Vec<Move> = Vec::new();
        let mut i: usize = 0;
        while i < MOVE_COUNT
            invariant
                i <= MOVE_COUNT,
                self.wf(),
                v@ == legal_below(self@, i as int),
            decreases MOVE_COUNT - i,
        {
            let mut trial = *self;
            if trial.process_move_idx(i) {
                v.push(Move::at(i));
            }
            i += 1;
        }
        v
    }
}

} // verus!
