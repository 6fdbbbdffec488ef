//! What holds of every position that play can reach, and of every accepted
//! move, proved from the rules.

use vstd::prelude::*;
use crate::bank::cell_of;
use crate::cascade::{lemma_catastrophe_wf, lemma_sweep_wf};
use crate::edits::{
    insert_after, lemma_insert_after, lemma_place_alone, lemma_place_first, lemma_place_second,
    lemma_prev, lemma_remove_ship, lemma_replace_ship, lemma_set_owner, place_alone, place_first,
    place_second, prev_of, remove_ship, replace_ship, set_owner,
};
use crate::game::{in_play, lemma_cell_of_key, Game};
use crate::kinds::{color_of, first_key, size_of, Color, Key, Size};
use crate::moves::Move;
use crate::position::{first_empty, lemma_first_empty, Piece};
use crate::rings::{
    is_ring, lemma_ring_at, lemma_ring_from, lemma_ring_index, lemma_ring_of, lemma_rotate,
    next_of, parent_of, partner_of, rotate, slot_ok,
};
use crate::rules::State;
use crate::turn::{Phase, Turn};

verus! {

/// The pieces of a size and colour that are on the board.
pub open spec fn on_board(b: Seq<Piece>, size: Size, color: Color) -> Set<int> {
    Set::new(
        |k: int| 0 <= k < 36 && color_of(k) == color && size_of(k) == size && !(b[k] is Empty),
    )
}

/// The pieces of a size and colour that are on the board are as many as
/// [`in_play`] counts in their cell.
pub proof fn lemma_on_board_count(b: Seq<Piece>, size: Size, color: Color)
    ensures
        on_board(b, size, color).finite(),
        on_board(b, size, color).len() == in_play(b, cell_of(size, color)),
{
    let cell = cell_of(size, color);
    let k0 = 3 * cell;
    let start = Set::<int>::empty();
    let first = if b[k0] is Empty {
        start
    } else {
        start.insert(k0)
    };
    let second = if b[k0 + 1] is Empty {
        first
    } else {
        first.insert(k0 + 1)
    };
    let third = if b[k0 + 2] is Empty {
        second
    } else {
        second.insert(k0 + 2)
    };
    assert forall|k: int| 0 <= k < 36 implies (color_of(k) == color && size_of(k) == size) == (k0
        <= k < k0 + 3) by {
        lemma_cell_of_key(k);
    }
    assert(on_board(b, size, color) =~= third);
}

/// Of every size and colour, the pieces in the stock and the pieces on the
/// board are three together.
pub proof fn law_bank_conservation(g: Game, size: Size, color: Color)
    requires
        g.wf(),
    ensures
        on_board(g@.board, size, color).finite(),
        g.stock().count(size, color) + on_board(g@.board, size, color).len() == 3,
{
    lemma_on_board_count(g@.board, size, color);
    let cell = cell_of(size, color);
    assert(g.stock().count_at(cell) + in_play(g@.board, cell) == 3);
}

/// The board has one slot for each key, and every ship on it is the
/// follower of exactly one ship.
pub proof fn law_identity_uniqueness(s: State, k: Key)
    requires
        s.wf(),
        k < 36,
        s.board[k as int] is Ship,
    ensures
        s.board.len() == 36,
        prev_of(s.board, k) < 36,
        s.board[prev_of(s.board, k) as int] is Ship,
        next_of(s.board, prev_of(s.board, k) as int) == k,
        parent_of(s.board, prev_of(s.board, k) as int) == parent_of(s.board, k as int),
        forall|q: Key|
            q < 36 && s.board[q as int] is Ship && #[trigger] next_of(s.board, q as int) == k
                ==> q == prev_of(s.board, k),
{
    let b = s.board;
    let r = lemma_ring_from(b, k as int);
    lemma_prev(b, k, r);
    lemma_ring_at(b, parent_of(b, k as int) as int, r, r.len() - 1);
}

/// Every ship stands at a single star or at the first half of a binary
/// system.
pub proof fn law_parent_wellformed(s: State, k: Key)
    requires
        s.wf(),
        k < 36,
        s.board[k as int] is Ship,
    ensures
        parent_of(s.board, k as int) < 36,
        s.board[parent_of(s.board, k as int) as int] is Star || s.board[parent_of(
            s.board,
            k as int,
        ) as int] is BinaryFirst,
{
    assert(slot_ok(s.board, k as int));
}

/// The ships of a system form one ring: from the ship that the star names,
/// the followers are distinct ships of the system, all of them, and the last
/// is followed by the first again; there are at most thirty-five.
pub proof fn law_ring_closure(s: State, p: Key) -> (r: Seq<Key>)
    requires
        s.wf(),
        p < 36,
        s.board[p as int].hosts(),
    ensures
        is_ring(s.board, p as int, r),
        r.len() <= 35,
        match s.board[p as int].child() {
            Some(c) => r.len() > 0 && r[0] == c,
            None => r.len() == 0,
        },
{
    let b = s.board;
    assert(slot_ok(b, p as int));
    let r = match b[p as int].child() {
        Some(c) => {
            let r0 = lemma_ring_of(b, p as int);
            let j = lemma_ring_index(b, p as int, r0, c);
            lemma_rotate(b, p as int, r0, j);
            rotate(r0, j)
        },
        None => {
            let r0 = lemma_ring_of(b, p as int);
            if r0.len() > 0 {
                lemma_ring_at(b, p as int, r0, 0);
            }
            r0
        },
    };
    lemma_ring_bound(b, p as int, r);
    r
}

/// A ring holds at most thirty-five ships: its keys are distinct, below
/// thirty-six, and none is the key of the star.
pub proof fn lemma_ring_bound(b: Seq<Piece>, p: int, r: Seq<Key>)
    requires
        is_ring(b, p, r),
        0 <= p < 36,
        b[p].hosts(),
    ensures
        r.len() <= 35,
{
    let keys = r.to_set();
    r.unique_seq_to_set();
    let all = Set::new(|k: Key| k < 36 && k != p);
    let ints = vstd::set_lib::set_int_range(0, 36);
    vstd::set_lib::lemma_int_range(0, 36);
    let image = all.map(|k: Key| k as int);
    assert forall|k: Key| keys.contains(k) implies all.contains(k) by {
        let i = choose|i: int| 0 <= i < r.len() && r[i] == k;
        lemma_ring_at(b, p, r, i);
    }
    let small = ints.remove(p);
    let keys_int = keys.map(|k: Key| k as int);
    assert forall|x: int| keys_int.contains(x) implies small.contains(x) by {
        let k = choose|k: Key| keys.contains(k) && k as int == x;
        assert(all.contains(k));
    }
    vstd::set_lib::lemma_len_subset(keys_int, small);
    vstd::set_lib::lemma_map_size(keys, keys_int, |k: Key| k as int);
}

/// The first half of a binary system names a second half exactly when that
/// second half names it.
pub proof fn law_binary_reciprocity(s: State, f: Key, x: Key)
    requires
        s.wf(),
        f < 36,
        x < 36,
    ensures
        (s.board[f as int] is BinaryFirst && partner_of(s.board, f as int) == Some(x)) <==> s.board[x as int]
            == (Piece::BinarySecond { sibling: f }),
{
    assert(slot_ok(s.board, f as int));
    assert(slot_ok(s.board, x as int));
}

/// With no ship travelling before the catastrophes that a change of player
/// brings, none travels after them.
pub proof fn lemma_sweep_keeps_rest(s: State, k: int)
    ensures
        s.moving is None ==> s.sweep_from(k).moving is None,
        s.sweep_from(k).turn == s.turn,
        s.sweep_from(k).wstar == s.wstar,
        s.sweep_from(k).bstar == s.bstar,
        s.sweep_from(k).repetition == s.repetition,
    decreases 36 - k,
{
    if 0 <= k < 36 {
        let next = match s.catastrophe(k as Key) {
            Some(t) => t,
            None => s,
        };
        lemma_sweep_keeps_rest(next, k + 1);
    }
}

/// An accepted move other than a departure, an arrival or a catastrophe
/// leaves the travelling ship as it was; a departure names it; an arrival
/// clears it; and while a ship travels, only its arrival moves the turn on.
pub proof fn law_move_in_progress(s: State, m: Move, after: State)
    requires
        s.step(m) == Some(after),
    ensures
        !(m is MoveInit) && !(m is MoveFinish) && !(m is Catastrophe) ==> after.moving == s.moving,
        m matches Move::MoveInit(t) ==> after.moving == Some(t),
        m is MoveFinish ==> after.moving is None,
        s.moving is Some && !(m is MoveFinish) ==> after.turn == s.turn,
{
    match m {
        Move::Attack(t) => {
            let mid = State { board: set_owner(s.board, t, s.turn.player), ..s };
            lemma_sweep_keeps_rest(State { turn: mid.turn.successor(), ..mid }, 0);
        },
        Move::Construct(t) => {
            let lo = color_of(t as int).index() * 9;
            let n = first_empty(s.board, lo, lo + 9)->0;
            let mid = State {
                board: insert_after(s.board, t, n, s.turn.player),
                ..s
            };
            lemma_sweep_keeps_rest(State { turn: mid.turn.successor(), ..mid }, 0);
        },
        Move::Transform(t, color) => {
            let lo = first_key(size_of(t as int), color);
            let n = first_empty(s.board, lo, lo + 3)->0;
            let mid = State {
                board: replace_ship(s.board, t, n, s.turn.player),
                ..s
            };
            lemma_sweep_keeps_rest(State { turn: mid.turn.successor(), ..mid }, 0);
        },
        Move::Sacrifice(t) => {},
        Move::MoveInit(t) => {},
        Move::MoveFinish(to) => {
            let f = s.moving->0;
            let b1 = remove_ship(s.board, f);
            let b2 = match b1[to as int].child() {
                Some(c) => insert_after(b1, c, f, s.turn.player),
                None => place_alone(b1, to, f, s.turn.player),
            };
            let mid = State { board: b2, moving: None, ..s };
            lemma_sweep_keeps_rest(State { turn: mid.turn.successor(), ..mid }, 0);
        },
        Move::Select(size, color) => {
            let lo = first_key(size, color);
            let n = first_empty(s.board, lo, lo + 3)->0;
            let me = s.turn.player;
            let mid = match s.turn.phase {
                Phase::Star1 => State {
                    board: place_first(s.board, n),
                    ..s
                }.with_home(me, n),
                Phase::Star2 => State {
                    board: place_second(s.board, s.home(me)->0, n),
                    ..s
                },
                _ => State { board: place_alone(s.board, s.home(me)->0, n, me), ..s },
            };
            lemma_sweep_keeps_rest(State { turn: mid.turn.successor(), ..mid }, 0);
        },
        Move::Catastrophe(t) => {},
        Move::Pass => {
            lemma_sweep_keeps_rest(
                State {
                    turn: Turn {
                        player: s.turn.player.other(),
                        phase: Phase::Action,
                    },
                    ..s
                },
                0,
            );
        },
    }
}

/// Moving the turn on, with the catastrophes that a change of player
/// brings, leaves a position that play can reach.
pub proof fn lemma_advance_wf(s: State)
    requires
        (State { turn: s.turn.successor(), ..s }).wf(),
    ensures
        s.advance().wf(),
{
    lemma_sweep_wf(State { turn: s.turn.successor(), ..s }, 0);
}

/// Every accepted move leads from a position that play can reach to another:
/// every ship stands at a star, the ships of every system form one ring, and
/// the halves of every binary system name each other.
pub proof fn law_step_wf(s: State, m: Move)
    requires
        s.wf(),
        s.step(m) is Some,
    ensures
        s.step(m)->0.wf(),
{
    let b = s.board;
    let me = s.turn.player;
    match m {
        Move::Attack(t) => {
            lemma_set_owner(b, t, me);
            lemma_advance_wf(State { board: set_owner(b, t, me), ..s });
        },
        Move::Construct(t) => {
            let lo = color_of(t as int).index() * 9;
            lemma_first_empty(b, lo, lo + 9);
            let n = first_empty(b, lo, lo + 9)->0;
            lemma_insert_after(b, t, n, me);
            lemma_advance_wf(State { board: insert_after(b, t, n, me), ..s });
        },
        Move::Transform(t, color) => {
            let lo = first_key(size_of(t as int), color);
            lemma_first_empty(b, lo, lo + 3);
            let n = first_empty(b, lo, lo + 3)->0;
            lemma_replace_ship(b, t, n, me);
            lemma_advance_wf(State { board: replace_ship(b, t, n, me), ..s });
        },
        Move::Sacrifice(t) => {
            lemma_remove_ship(b, t);
        },
        Move::MoveInit(t) => {},
        Move::MoveFinish(to) => {
            let f = s.moving->0;
            assert(slot_ok(b, f as int));
            lemma_remove_ship(b, f);
            let b1 = remove_ship(b, f);
            assert(b1[to as int] == b[to as int]);
            assert(slot_ok(b1, to as int));
            let b2 = match b1[to as int].child() {
                Some(c) => {
                    lemma_insert_after(b1, c, f, me);
                    insert_after(b1, c, f, me)
                },
                None => {
                    lemma_place_alone(b1, to, f, me);
                    place_alone(b1, to, f, me)
                },
            };
            lemma_advance_wf(State { board: b2, moving: None, ..s });
        },
        Move::Select(size, color) => {
            let lo = first_key(size, color);
            lemma_first_empty(b, lo, lo + 3);
            let n = first_empty(b, lo, lo + 3)->0;
            match s.turn.phase {
                Phase::Star1 => {
                    lemma_place_first(b, n);
                    lemma_advance_wf(
                        State { board: place_first(b, n), ..s }.with_home(me, n),
                    );
                },
                Phase::Star2 => {
                    let h = s.home(me)->0;
                    lemma_place_second(b, h, n);
                    lemma_advance_wf(State { board: place_second(b, h, n), ..s });
                },
                _ => {
                    let h = s.home(me)->0;
                    lemma_place_alone(b, h, n, me);
                    lemma_advance_wf(
                        State { board: place_alone(b, h, n, me), ..s },
                    );
                },
            }
        },
        Move::Catastrophe(t) => {
            lemma_catastrophe_wf(s, t);
        },
        Move::Pass => {
            lemma_sweep_wf(
                State {
                    turn: Turn { player: me.other(), phase: Phase::Action },
                    ..s
                },
                0,
            );
        },
    }
}

} // verus!
