//! What a catastrophe does to a board, proved from its definition, and why
//! a second round of catastrophes finds nothing left to do.

use vstd::prelude::*;
use crate::edits::{
    lemma_drop_second, lemma_no_ship_at_empty, lemma_promote, lemma_remove_ship, lemma_scatter,
    remove_ship,
};
use crate::kinds::{color_of, Color, Key};
use crate::position::Piece;
use crate::rings::{
    is_ring, lemma_ring_at, lemma_ring_index, owner_of, parent_of, partner_of, ship_of, slot_ok,
    wf_board,
};
use crate::rules::{blast, cluster_size, lemma_ships_of_color, remove_each, ships_of_color, State};

verus! {

/// What the removal of several ships of one system leaves as it was, and
/// that it leaves the board well formed.
pub proof fn lemma_remove_each(b: Seq<Piece>, ks: Seq<Key>, p: int)
    requires
        wf_board(b),
        0 <= p < 36,
        forall|i: int| #![trigger ks[i]] 0 <= i < ks.len() ==> ship_of(b, ks[i] as int, p),
        forall|i: int, j: int| 0 <= i < j < ks.len() ==> ks[i] != ks[j],
    ensures
        wf_board(remove_each(b, ks)),
        forall|k: int|
            0 <= k < 36 && k != p && !(b[k] is Ship) ==> #[trigger] remove_each(b, ks)[k] == b[k],
        forall|k: int|
            0 <= k < 36 && #[trigger] remove_each(b, ks)[k] is Ship ==> {
                &&& b[k] is Ship
                &&& parent_of(remove_each(b, ks), k) == parent_of(b, k)
                &&& owner_of(remove_each(b, ks), k) == owner_of(b, k)
            },
        forall|i: int| #![trigger ks[i]] 0 <= i < ks.len() ==> remove_each(b, ks)[ks[i] as int] is Empty,
        partner_of(remove_each(b, ks), p) == partner_of(b, p),
        b[p].hosts() ==> remove_each(b, ks)[p].hosts() || (b[p] is Star && remove_each(
            b,
            ks,
        )[p] is Empty),
        b[p] is BinaryFirst ==> remove_each(b, ks)[p] is BinaryFirst,
    decreases ks.len(),
{
    if ks.len() > 0 {
        let s = ks[0];
        let b1 = remove_ship(b, s);
        let rest = ks.drop_first();
        let b2 = remove_each(b1, rest);
        assert(ship_of(b, ks[0] as int, p));
        assert(slot_ok(b, s as int));
        lemma_remove_ship(b, s);
        assert forall|i: int| #![trigger rest[i]] 0 <= i < rest.len() implies ship_of(
            b1,
            rest[i] as int,
            p,
        ) by {
            assert(rest[i] == ks[i + 1]);
            assert(ship_of(b, ks[i + 1] as int, p));
            assert(ks[0] != ks[i + 1]);
            assert(b1[rest[i] as int] is Ship);
        }
        assert forall|i: int, j: int| 0 <= i < j < rest.len() implies rest[i] != rest[j] by {
            assert(rest[i] == ks[i + 1]);
            assert(rest[j] == ks[j + 1]);
        }
        lemma_remove_each(b1, rest, p);
        if rest.len() > 0 {
            assert(ship_of(b1, rest[0] as int, p));
            assert(slot_ok(b1, rest[0] as int));
        }
        assert forall|k: int| 0 <= k < 36 && k != p && !(b[k] is Ship) implies #[trigger] b2[k]
            == b[k] by {
            assert(b1[k] == b[k]);
        }
        assert forall|k: int| 0 <= k < 36 && #[trigger] b2[k] is Ship implies {
            &&& b[k] is Ship
            &&& parent_of(b2, k) == parent_of(b, k)
            &&& owner_of(b2, k) == owner_of(b, k)
        } by {
            assert(b1[k] is Ship);
        }
        assert forall|i: int| #![trigger ks[i]] 0 <= i < ks.len() implies b2[ks[i] as int] is Empty by {
            if i == 0 {
                assert(b1[s as int] is Empty);
            } else {
                assert(rest[i - 1] == ks[i]);
            }
        }
    }
}

/// The catastrophe at the ship `t` leaves the board well formed; it makes no
/// ship, changes no owner, moves ships only from the first half of a binary
/// system to its second, takes every ship of the colour at the system off
/// the board, and leaves every other system as it was.
pub proof fn lemma_blast(b: Seq<Piece>, t: Key)
    requires
        wf_board(b),
        t < 36,
        b[t as int] is Ship,
    ensures
        wf_board(blast(b, t)),
        forall|k: int|
            0 <= k < 36 && #[trigger] blast(b, t)[k] is Ship ==> {
                &&& b[k] is Ship
                &&& owner_of(blast(b, t), k) == owner_of(b, k)
                &&& (parent_of(blast(b, t), k) == parent_of(b, k) || (parent_of(b, k) == parent_of(
                    b,
                    t as int,
                ) && partner_of(b, parent_of(b, t as int) as int) == Some(
                    parent_of(blast(b, t), k),
                )))
                &&& !(parent_of(b, k) == parent_of(b, t as int) && color_of(k) == color_of(
                    t as int,
                ))
            },
        forall|k: int|
            0 <= k < 36 && k != parent_of(b, t as int) && partner_of(
                b,
                parent_of(b, t as int) as int,
            ) != Some(k as Key) && !(b[k] is Ship) ==> #[trigger] blast(b, t)[k] == b[k],
        blast(b, t)[parent_of(b, t as int) as int].hosts() ==> {
            &&& partner_of(blast(b, t), parent_of(b, t as int) as int) == partner_of(
                b,
                parent_of(b, t as int) as int,
            ) || partner_of(blast(b, t), parent_of(b, t as int) as int) is None
            &&& forall|k: int| #[trigger]
                ship_of(blast(b, t), k, parent_of(b, t as int) as int) ==> ship_of(
                    b,
                    k,
                    parent_of(b, t as int) as int,
                )
        },
        partner_of(b, parent_of(b, t as int) as int) matches Some(x) ==> (blast(
            b,
            t,
        )[x as int].hosts() ==> partner_of(blast(b, t), x as int) is None),
{
    let p = parent_of(b, t as int);
    let c = color_of(t as int);
    let ks = ships_of_color(b, p as int, c, 36);
    let b1 = remove_each(b, ks);
    let b2 = blast(b, t);
    assert(slot_ok(b, t as int));
    assert(slot_ok(b, p as int));
    lemma_ships_of_color(b, p as int, c, 36);
    lemma_remove_each(b, ks, p as int);
    assert forall|k: int| 0 <= k < 36 && #[trigger] b1[k] is Ship implies !(parent_of(b, k) == p
        && color_of(k) == c) by {
        if parent_of(b, k) == p && color_of(k) == c {
            assert(ship_of(b, k, p as int));
            assert(ks.contains(k as Key));
            let i = choose|i: int| 0 <= i < ks.len() && ks[i] == k as Key;
            assert(b1[ks[i] as int] is Empty);
        }
    }
    assert forall|k: int| #[trigger] ship_of(b1, k, p as int) implies ship_of(b, k, p as int) by {
        assert(b1[k] is Ship);
    }
    let p_hit = color_of(p as int) == c;
    match partner_of(b, p as int) {
        Some(x) => {
            let x_hit = color_of(x as int) == c;
            assert(b1[x as int] == b[x as int]);
            if p_hit && x_hit {
                lemma_scatter(b1, p);
            } else if p_hit {
                lemma_promote(b1, p, x);
                lemma_no_ship_at_empty(b1, x as int);
                assert forall|k: int| 0 <= k < 36 && #[trigger] b2[k] is Ship implies {
                    &&& b[k] is Ship
                    &&& owner_of(b2, k) == owner_of(b, k)
                    &&& (parent_of(b2, k) == parent_of(b, k) || (parent_of(b, k) == p
                        && partner_of(b, p as int) == Some(parent_of(b2, k))))
                    &&& !(parent_of(b, k) == p && color_of(k) == c)
                } by {
                    assert(b1[k] is Ship);
                }
            } else if x_hit {
                lemma_drop_second(b1, p, x);
            }
        },
        None => {
            if p_hit {
                lemma_scatter(b1, p);
            }
        },
    }
    assert forall|k: int| 0 <= k < 36 && #[trigger] b2[k] is Ship implies {
        &&& b[k] is Ship
        &&& owner_of(b2, k) == owner_of(b, k)
        &&& (parent_of(b2, k) == parent_of(b, k) || (parent_of(b, k) == p && partner_of(
            b,
            p as int,
        ) == Some(parent_of(b2, k))))
        &&& !(parent_of(b, k) == p && color_of(k) == c)
    } by {
        assert(b1[k] is Ship);
    }
    assert forall|k: int|
        0 <= k < 36 && k != p && partner_of(b, p as int) != Some(k as Key) && !(b[k] is Ship)
        implies #[trigger] b2[k] == b[k] by {
        assert(b1[k] == b[k]);
    }
    if b2[p as int].hosts() {
        assert forall|k: int| #[trigger] ship_of(b2, k, p as int) implies ship_of(
            b,
            k,
            p as int,
        ) by {
            assert(b2[k] is Ship);
            assert(b1[k] is Ship);
        }
    }
}

/// An accepted catastrophe leaves a position that play can reach.
pub proof fn lemma_catastrophe_wf(s: State, t: Key)
    requires
        s.wf(),
        s.catastrophe(t) is Some,
    ensures
        s.catastrophe(t)->0.wf(),
{
    let b = s.board;
    let p = parent_of(b, t as int);
    lemma_blast(b, t);
    let after = s.catastrophe(t)->0;
    assert(slot_ok(b, t as int));
    assert(slot_ok(b, p as int));
    if s.turn.phase is Star2 || s.turn.phase is Ship {
        let h = s.home(s.turn.player)->0;
        assert(ship_of(b, t as int, p as int));
        assert(h != p);
        assert(after.board[h as int] == b[h as int]);
    }
}

/// Every round of catastrophes leaves a position that play can reach.
pub proof fn lemma_sweep_wf(s: State, k: int)
    requires
        s.wf(),
    ensures
        s.sweep_from(k).wf(),
    decreases 36 - k,
{
    if 0 <= k < 36 {
        match s.catastrophe(k as Key) {
            Some(t) => {
                lemma_catastrophe_wf(s, k as Key);
                lemma_sweep_wf(t, k + 1);
            },
            None => {
                lemma_sweep_wf(s, k + 1);
            },
        }
    }
}

/// A system that has no ship which another did not have, has no more
/// ships of a colour than the other.
pub proof fn lemma_fewer_ships(
    b: Seq<Piece>,
    p: int,
    b2: Seq<Piece>,
    pn: int,
    c: Color,
    n: int,
)
    requires
        n <= 36,
        forall|k: int| 0 <= k < n && #[trigger] ship_of(b2, k, pn) ==> ship_of(b, k, p),
    ensures
        ships_of_color(b2, pn, c, n).len() <= ships_of_color(b, p, c, n).len(),
    decreases n,
{
    if n > 0 {
        lemma_fewer_ships(b, p, b2, pn, c, n - 1);
        if ship_of(b2, n - 1, pn) {
            assert(ship_of(b, n - 1, p));
        }
    }
}

/// A catastrophe does not add to what a ship that it leaves on the board
/// has of its own colour at its system.
pub proof fn lemma_cluster_shrinks(b: Seq<Piece>, t: Key, j: Key)
    requires
        wf_board(b),
        t < 36,
        b[t as int] is Ship,
        j < 36,
        blast(b, t)[j as int] is Ship,
    ensures
        cluster_size(blast(b, t), j) <= cluster_size(b, j),
{
    let b2 = blast(b, t);
    lemma_blast(b, t);
    let p = parent_of(b, t as int);
    let q = parent_of(b, j as int);
    let q2 = parent_of(b2, j as int);
    let c = color_of(j as int);
    assert(b[j as int] is Ship);
    assert(slot_ok(b, j as int));
    assert(slot_ok(b2, j as int));
    assert(slot_ok(b, t as int));
    assert(slot_ok(b, p as int));
    assert(slot_ok(b, q as int));
    assert(slot_ok(b2, q2 as int));
    if q2 == q {
        assert forall|k: int| 0 <= k < 36 && #[trigger] ship_of(b2, k, q2 as int) implies ship_of(
            b,
            k,
            q as int,
        ) by {
            assert(b2[k] is Ship);
        }
        lemma_fewer_ships(b, q as int, b2, q2 as int, c, 36);
        if q != p {
            assert(b2[q as int] == b[q as int]);
        }
    } else {
        lemma_no_ship_at_empty(b, q2 as int);
        assert forall|k: int| 0 <= k < 36 && #[trigger] ship_of(b2, k, q2 as int) implies ship_of(
            b,
            k,
            q as int,
        ) by {
            assert(b2[k] is Ship);
            assert(!ship_of(b, k, q2 as int));
        }
        lemma_fewer_ships(b, q as int, b2, q2 as int, c, 36);
    }
}

/// No catastrophe is due at a ship with a key below `n`.
pub open spec fn settled(b: Seq<Piece>, n: int) -> bool {
    forall|j: int| 0 <= j < n && #[trigger] b[j] is Ship ==> cluster_size(b, j as Key) < 4
}

/// After a round of catastrophes none is due.
pub proof fn lemma_sweep_settles(s: State, k: int)
    requires
        s.wf(),
        0 <= k <= 36,
        settled(s.board, k),
    ensures
        settled(s.sweep_from(k).board, 36),
    decreases 36 - k,
{
    if k < 36 {
        match s.catastrophe(k as Key) {
            Some(t) => {
                lemma_catastrophe_wf(s, k as Key);
                lemma_blast(s.board, k as Key);
                assert forall|j: int| 0 <= j < k + 1 && #[trigger] t.board[j] is Ship implies cluster_size(
                    t.board,
                    j as Key,
                ) < 4 by {
                    assert(s.board[j] is Ship);
                    lemma_cluster_shrinks(s.board, k as Key, j as Key);
                }
                lemma_sweep_settles(t, k + 1);
            },
            None => {
                lemma_sweep_settles(s, k + 1);
            },
        }
    }
}

/// Where no catastrophe is due, a round of catastrophes changes nothing.
pub proof fn lemma_settled_is_fixed(s: State, k: int)
    requires
        settled(s.board, 36),
    ensures
        s.sweep_from(k) == s,
    decreases 36 - k,
{
    if 0 <= k < 36 {
        assert(s.board[k] is Ship ==> cluster_size(s.board, k as Key) < 4);
        lemma_settled_is_fixed(s, k + 1);
    }
}

/// A second round of catastrophes, right after the first, changes nothing.
pub proof fn law_sweep_idempotent(s: State)
    requires
        s.wf(),
    ensures
        s.sweep_from(0).sweep_from(0) == s.sweep_from(0),
{
    lemma_sweep_settles(s, 0);
    lemma_settled_is_fixed(s.sweep_from(0), 0);
}

/// The ships at system `p` among the keys below `n`.
pub open spec fn ships_below(b: Seq<Piece>, p: int, n: int) -> Set<Key> {
    Set::new(|k: Key| k < n && ship_of(b, k as int, p))
}

/// The ships at a system are as many as its ships of the four colours
/// together.
pub proof fn lemma_ships_by_color(b: Seq<Piece>, p: int, n: int)
    requires
        0 <= n <= 36,
    ensures
        ships_below(b, p, n).finite(),
        ships_below(b, p, n).len() == ships_of_color(b, p, Color::Red, n).len() + ships_of_color(
            b,
            p,
            Color::Yellow,
            n,
        ).len() + ships_of_color(b, p, Color::Green, n).len() + ships_of_color(
            b,
            p,
            Color::Blue,
            n,
        ).len(),
    decreases n,
{
    if n == 0 {
        assert(ships_below(b, p, n) =~= Set::<Key>::empty());
    } else {
        lemma_ships_by_color(b, p, n - 1);
        let before = ships_below(b, p, n - 1);
        if ship_of(b, n - 1, p) {
            assert(ships_below(b, p, n) =~= before.insert((n - 1) as Key));
        } else {
            assert(ships_below(b, p, n) =~= before);
        }
    }
}

/// Where no catastrophe is due, a system has at most three ships of a
/// colour.
pub proof fn lemma_settled_color(b: Seq<Piece>, p: int, c: Color)
    requires
        wf_board(b),
        settled(b, 36),
        0 <= p < 36,
    ensures
        ships_of_color(b, p, c, 36).len() <= 3,
{
    let ks = ships_of_color(b, p, c, 36);
    lemma_ships_of_color(b, p, c, 36);
    if ks.len() > 0 {
        let j = ks[0];
        assert(ship_of(b, j as int, p));
        assert(b[j as int] is Ship);
        assert(cluster_size(b, j) < 4);
    }
}

/// Where no catastrophe is due, the ring of a system holds at most twelve
/// ships.
pub proof fn law_ring_within_twelve(s: State, p: Key, r: Seq<Key>)
    requires
        s.wf(),
        settled(s.board, 36),
        p < 36,
        is_ring(s.board, p as int, r),
    ensures
        r.len() <= 12,
{
    let b = s.board;
    lemma_ships_by_color(b, p as int, 36);
    lemma_settled_color(b, p as int, Color::Red);
    lemma_settled_color(b, p as int, Color::Yellow);
    lemma_settled_color(b, p as int, Color::Green);
    lemma_settled_color(b, p as int, Color::Blue);
    r.unique_seq_to_set();
    assert(r.to_set() =~= ships_below(b, p as int, 36)) by {
        assert forall|k: Key| r.to_set().contains(k) implies ships_below(b, p as int, 36).contains(
            k,
        ) by {
            let i = choose|i: int| 0 <= i < r.len() && r[i] == k;
            lemma_ring_at(b, p as int, r, i);
        }
        assert forall|k: Key| ships_below(b, p as int, 36).contains(k) implies r.to_set().contains(
            k,
        ) by {
            let i = lemma_ring_index(b, p as int, r, k);
        }
    }
}

/// After the catastrophes that a change of player brings, the ring of every
/// system holds at most twelve ships.
pub proof fn law_ring_closure_after_sweep(s: State, p: Key, r: Seq<Key>)
    requires
        s.wf(),
        p < 36,
        is_ring(s.sweep_from(0).board, p as int, r),
    ensures
        r.len() <= 12,
{
    lemma_sweep_wf(s, 0);
    lemma_sweep_settles(s, 0);
    law_ring_within_twelve(s.sweep_from(0), p, r);
}

} // verus!
