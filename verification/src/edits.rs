//! The elementary edits of a board (a ship changes hands, enters a ring,
//! leaves it, is exchanged for another piece) and the proofs that each keeps
//! the board well formed.

use vstd::prelude::*;
use crate::kinds::{Key, Player};
use crate::position::Piece;
use crate::rings::{
    follower, is_ring, lemma_ring_at, lemma_ring_frame, lemma_ring_from, lemma_ring_of,
    lemma_ring_index, link_ok, next_of, owner_of, parent_of, partner_of, ship_of, slot_ok,
    wf_board,
};

verus! {

/// Slot `k` holds a ship on both boards, at the same system and with the
/// same follower.
pub open spec fn kept(b: Seq<Piece>, b2: Seq<Piece>, k: int) -> bool {
    &&& b[k] is Ship
    &&& b2[k] is Ship
    &&& parent_of(b, k) == parent_of(b2, k)
    &&& next_of(b, k) == next_of(b2, k)
}

/// A board stays well formed under an edit that touches the ships of one
/// system only: the system `p`, which the edit may move to `pn`.
pub proof fn lemma_edit(b: Seq<Piece>, b2: Seq<Piece>, p: int, pn: int, r2: Seq<Key>)
    requires
        wf_board(b),
        b2.len() == 36,
        forall|k: int| 0 <= k < 36 ==> #[trigger] slot_ok(b2, k),
        0 <= pn < 36 && b2[pn].hosts() ==> is_ring(b2, pn, r2),
        forall|q: int|
            0 <= q < 36 && q != pn && #[trigger] b2[q].hosts() ==> b[q].hosts() && q != p,
        forall|k: int|
            0 <= k < 36 && b2[k] is Ship && parent_of(b2, k) != pn ==> #[trigger] kept(b, b2, k),
        forall|k: int|
            0 <= k < 36 && b[k] is Ship && parent_of(b, k) != p ==> #[trigger] kept(b, b2, k),
    ensures
        wf_board(b2),
{
    assert forall|q: int| 0 <= q < 36 && #[trigger] b2[q].hosts() implies exists|r: Seq<Key>|
        is_ring(b2, q, r) by {
        if q == pn {
            assert(is_ring(b2, q, r2));
        } else {
            assert(b[q].hosts());
            let r = choose|r: Seq<Key>| is_ring(b, q, r);
            assert forall|k: int| #[trigger] ship_of(b, k, q) implies ship_of(b2, k, q) && next_of(
                b2,
                k,
            ) == next_of(b, k) by {
                assert(kept(b, b2, k));
            }
            assert forall|k: int| #[trigger] ship_of(b2, k, q) implies ship_of(b, k, q) by {
                assert(kept(b, b2, k));
            }
            lemma_ring_frame(b, b2, q, r);
        }
    }
}

/// The board on which the ship at `t` belongs to `who`.
pub open spec fn set_owner(b: Seq<Piece>, t: Key, who: Player) -> Seq<Piece> {
    b.update(
        t as int,
        Piece::Ship {
            parent: parent_of(b, t as int),
            next_sibling: next_of(b, t as int),
            owner: who,
        },
    )
}

pub proof fn lemma_set_owner(b: Seq<Piece>, t: Key, who: Player)
    requires
        wf_board(b),
        t < 36,
        b[t as int] is Ship,
    ensures
        wf_board(set_owner(b, t, who)),
{
    let b2 = set_owner(b, t, who);
    let p = parent_of(b, t as int) as int;
    let r = lemma_ring_from(b, t as int);
    assert forall|k: int, q: int| #[trigger] ship_of(b2, k, q) implies ship_of(b, k, q) by {}
    assert forall|k: int| 0 <= k < 36 implies #[trigger] slot_ok(b2, k) by {
        assert(slot_ok(b, k));
    }
    lemma_ring_frame(b, b2, p, r);
    assert forall|k: int| 0 <= k < 36 && b2[k] is Ship implies #[trigger] kept(b, b2, k) by {}
    assert forall|k: int| 0 <= k < 36 && b[k] is Ship implies #[trigger] kept(b, b2, k) by {}
    lemma_edit(b, b2, p, p, r);
}

/// The board on which the piece `n`, taken from the stock, is a ship of `who`
/// that follows the ship `t` in its ring.
pub open spec fn insert_after(b: Seq<Piece>, t: Key, n: Key, who: Player) -> Seq<Piece> {
    b.update(t as int, b[t as int].with_next(n)).update(
        n as int,
        Piece::Ship {
            parent: parent_of(b, t as int),
            next_sibling: next_of(b, t as int),
            owner: who,
        },
    )
}

/// `r` with `n` put in behind its first element.
pub open spec fn with_second(r: Seq<Key>, n: Key) -> Seq<Key> {
    Seq::new(
        r.len() + 1,
        |i: int|
            if i == 0 {
                r[0]
            } else if i == 1 {
                n
            } else {
                r[i - 1]
            },
    )
}

pub proof fn lemma_insert_after(b: Seq<Piece>, t: Key, n: Key, who: Player)
    requires
        wf_board(b),
        t < 36,
        b[t as int] is Ship,
        n < 36,
        b[n as int] is Empty,
    ensures
        wf_board(insert_after(b, t, n, who)),
{
    let b2 = insert_after(b, t, n, who);
    let p = parent_of(b, t as int) as int;
    let r = lemma_ring_from(b, t as int);
    let r2 = with_second(r, n);
    let len = r.len() as int;
    assert(slot_ok(b, t as int));
    assert forall|i: int| 0 <= i < len implies r[i] != n by {
        lemma_ring_at(b, p, r, i);
    }
    assert(r2.no_duplicates());
    assert forall|i: int| 0 <= i < r2.len() implies #[trigger] link_ok(b2, p, r2, i) by {
        if i == 0 {
            lemma_ring_at(b, p, r, 0);
        } else if i == 1 {
            lemma_ring_at(b, p, r, 0);
        } else {
            lemma_ring_at(b, p, r, i - 1);
        }
    }
    assert forall|k: Key| ship_of(b2, k as int, p) implies #[trigger] r2.contains(k) by {
        if k == n {
            assert(r2[1] == k);
        } else {
            let i = lemma_ring_index(b, p, r, k);
            if i == 0 {
                assert(r2[0] == k);
            } else {
                assert(r2[i + 1] == k);
            }
        }
    }
    assert(is_ring(b2, p, r2));
    assert forall|k: int, q: int| #[trigger] ship_of(b2, k, q) implies ship_of(b, k, q) || (k == n
        && q == p) by {}
    assert forall|k: int| 0 <= k < 36 implies #[trigger] slot_ok(b2, k) by {
        assert(slot_ok(b, k));
        if b[k].hosts() && b[k].child() is None {
            assert(k != p) by {
                assert(ship_of(b, t as int, p));
            }
        }
    }
    assert forall|k: int| 0 <= k < 36 && b2[k] is Ship && parent_of(b2, k) != p implies #[trigger] kept(
        b,
        b2,
        k,
    ) by {}
    assert forall|k: int| 0 <= k < 36 && b[k] is Ship && parent_of(b, k) != p implies #[trigger] kept(
        b,
        b2,
        k,
    ) by {}
    lemma_edit(b, b2, p, p, r2);
}

/// The board on which the piece `n`, taken from the stock, is the only ship
/// at the system `p`, and belongs to `who`.
pub open spec fn place_alone(b: Seq<Piece>, p: Key, n: Key, who: Player) -> Seq<Piece> {
    b.update(p as int, b[p as int].with_child(Some(n))).update(
        n as int,
        Piece::Ship { parent: p, next_sibling: n, owner: who },
    )
}

pub proof fn lemma_place_alone(b: Seq<Piece>, p: Key, n: Key, who: Player)
    requires
        wf_board(b),
        p < 36,
        b[p as int].hosts(),
        b[p as int].child() is None,
        n < 36,
        b[n as int] is Empty,
    ensures
        wf_board(place_alone(b, p, n, who)),
{
    let b2 = place_alone(b, p, n, who);
    let r2 = seq![n];
    assert(slot_ok(b, p as int));
    assert(r2.no_duplicates());
    assert forall|i: int| 0 <= i < r2.len() implies #[trigger] link_ok(b2, p as int, r2, i) by {}
    assert forall|k: int, q: int| #[trigger] ship_of(b2, k, q) implies ship_of(b, k, q) || (k == n
        && q == p) by {}
    assert forall|k: Key| ship_of(b2, k as int, p as int) implies #[trigger] r2.contains(k) by {
        assert(!ship_of(b, k as int, p as int));
        assert(r2[0] == k);
    }
    assert forall|k: int| 0 <= k < 36 implies #[trigger] slot_ok(b2, k) by {
        assert(slot_ok(b, k));
    }
    assert forall|k: int| 0 <= k < 36 && b2[k] is Ship && parent_of(b2, k) != p implies #[trigger] kept(
        b,
        b2,
        k,
    ) by {}
    assert forall|k: int| 0 <= k < 36 && b[k] is Ship && parent_of(b, k) != p implies #[trigger] kept(
        b,
        b2,
        k,
    ) by {}
    lemma_edit(b, b2, p as int, p as int, r2);
}

/// The ship that `s` follows in its ring; a ship alone in its ring follows
/// itself.
pub open spec fn prev_of(b: Seq<Piece>, s: Key) -> Key {
    choose|q: Key| q < 36 && b[q as int] is Ship && next_of(b, q as int) == s
}

/// Every ship follows exactly one ship, which stands at the same system.
pub proof fn lemma_prev(b: Seq<Piece>, s: Key, r: Seq<Key>)
    requires
        wf_board(b),
        s < 36,
        b[s as int] is Ship,
        is_ring(b, parent_of(b, s as int) as int, r),
        r.len() > 0,
        r[0] == s,
    ensures
        prev_of(b, s) == r[r.len() - 1],
        forall|q: Key|
            q < 36 && b[q as int] is Ship && #[trigger] next_of(b, q as int) == s ==> q == r[r.len()
                - 1],
        (next_of(b, s as int) == s) == (r.len() == 1),
{
    let p = parent_of(b, s as int) as int;
    let last = r.len() - 1;
    lemma_ring_at(b, p, r, last);
    lemma_ring_at(b, p, r, 0);
    assert forall|q: Key|
        q < 36 && b[q as int] is Ship && #[trigger] next_of(b, q as int) == s implies q
        == r[last] by {
        let pq = parent_of(b, q as int) as int;
        let rq = lemma_ring_from(b, q as int);
        lemma_ring_at(b, pq, rq, 0);
        if rq.len() > 1 {
            lemma_ring_at(b, pq, rq, 1);
        }
        assert(ship_of(b, s as int, pq));
        let i = lemma_ring_index(b, p, r, q);
        lemma_ring_at(b, p, r, i);
        if i < last {
            assert(r[i + 1] == r[0]);
        }
    }
    let w = r[last];
    assert(w < 36 && b[w as int] is Ship && next_of(b, w as int) == s);
}

/// The board without the ship `s`.
///
/// Its ring closes over the gap; a star that named `s` as the entry of the
/// ring names the follower of `s`. When `s` was alone, its system has no entry
/// any more, and a single star left without ships goes back to the stock too.
pub open spec fn remove_ship(b: Seq<Piece>, s: Key) -> Seq<Piece> {
    let p = parent_of(b, s as int);
    let next = next_of(b, s as int);
    if next == s {
        b.update(s as int, Piece::Empty).update(
            p as int,
            if b[p as int] is Star {
                Piece::Empty
            } else {
                b[p as int].with_child(None)
            },
        )
    } else {
        let q = prev_of(b, s);
        b.update(s as int, Piece::Empty).update(q as int, b[q as int].with_next(next)).update(
            p as int,
            if b[p as int].child() == Some(s) {
                b[p as int].with_child(Some(next))
            } else {
                b[p as int]
            },
        )
    }
}

/// What the removal of a ship leaves as it was: every slot but those of the
/// ship, of the ship it followed, and of its system.
pub proof fn lemma_remove_ship(b: Seq<Piece>, s: Key)
    requires
        wf_board(b),
        s < 36,
        b[s as int] is Ship,
    ensures
        wf_board(remove_ship(b, s)),
        remove_ship(b, s)[s as int] is Empty,
        forall|k: int|
            0 <= k < 36 && k != s && b[k] is Ship ==> {
                &&& #[trigger] remove_ship(b, s)[k] is Ship
                &&& parent_of(remove_ship(b, s), k) == parent_of(b, k)
                &&& owner_of(remove_ship(b, s), k) == owner_of(b, k)
            },
        forall|k: int|
            0 <= k < 36 && k != parent_of(b, s as int) && !(b[k] is Ship) ==> #[trigger] remove_ship(
                b,
                s,
            )[k] == b[k],
        forall|k: int| 0 <= k < 36 && #[trigger] remove_ship(b, s)[k] is Ship ==> b[k] is Ship,
        partner_of(remove_ship(b, s), parent_of(b, s as int) as int) == partner_of(
            b,
            parent_of(b, s as int) as int,
        ),
        remove_ship(b, s)[parent_of(b, s as int) as int].hosts() || (b[parent_of(
            b,
            s as int,
        ) as int] is Star && remove_ship(b, s)[parent_of(b, s as int) as int] is Empty
            && next_of(b, s as int) == s),
        remove_ship(b, s)[parent_of(b, s as int) as int] is Star ==> b[parent_of(
            b,
            s as int,
        ) as int] is Star,
{
    let b2 = remove_ship(b, s);
    let p = parent_of(b, s as int) as int;
    let next = next_of(b, s as int);
    let r = lemma_ring_from(b, s as int);
    let len = r.len() as int;
    lemma_prev(b, s, r);
    lemma_ring_at(b, p, r, 0);
    lemma_ring_at(b, p, r, len - 1);
    assert(slot_ok(b, s as int));
    assert(slot_ok(b, p));
    let r2 = Seq::new((len - 1) as nat, |i: int| r[i + 1]);
    assert(r2.no_duplicates());
    assert forall|k: int, q: int| #[trigger] ship_of(b2, k, q) implies ship_of(b, k, q) && k
        != s by {}
    if next == s {
        assert forall|k: Key| ship_of(b2, k as int, p) implies #[trigger] r2.contains(k) by {
            let i = lemma_ring_index(b, p, r, k);
        }
    } else {
        let q = r[len - 1];
        assert(q != s);
        assert forall|i: int| 0 <= i < r2.len() implies #[trigger] link_ok(b2, p, r2, i) by {
            lemma_ring_at(b, p, r, i + 1);
        }
        assert forall|k: Key| ship_of(b2, k as int, p) implies #[trigger] r2.contains(k) by {
            let i = lemma_ring_index(b, p, r, k);
            assert(r2[i - 1] == k);
        }
        lemma_ring_at(b, p, r, 1);
    }
    assert(ship_of(b, s as int, p));
    assert forall|k: int| ship_of(b2, k, p) implies next != s by {
        let i = lemma_ring_index(b, p, r, k as Key);
    }
    assert forall|k: int| 0 <= k < 36 implies #[trigger] slot_ok(b2, k) by {
        assert(slot_ok(b, k));
        if b2[k] is Ship {
            assert(ship_of(b2, k, parent_of(b2, k) as int));
        }
    }
    assert forall|k: int| 0 <= k < 36 && b2[k] is Ship && parent_of(b2, k) != p implies #[trigger] kept(
        b,
        b2,
        k,
    ) by {
        assert(ship_of(b2, k, parent_of(b2, k) as int));
    }
    assert forall|k: int| 0 <= k < 36 && b[k] is Ship && parent_of(b, k) != p implies #[trigger] kept(
        b,
        b2,
        k,
    ) by {}
    lemma_edit(b, b2, p, p, r2);
}

/// The board on which the piece `n`, taken from the stock, stands where the
/// ship `t` stood in its ring, as a ship of `who`; `t` is back in the stock.
pub open spec fn replace_ship(b: Seq<Piece>, t: Key, n: Key, who: Player) -> Seq<Piece> {
    let p = parent_of(b, t as int);
    let next = next_of(b, t as int);
    let star = if b[p as int].child() == Some(t) {
        b[p as int].with_child(Some(n))
    } else {
        b[p as int]
    };
    if next == t {
        b.update(t as int, Piece::Empty).update(
            n as int,
            Piece::Ship { parent: p, next_sibling: n, owner: who },
        ).update(p as int, star)
    } else {
        let q = prev_of(b, t);
        b.update(t as int, Piece::Empty).update(q as int, b[q as int].with_next(n)).update(
            n as int,
            Piece::Ship { parent: p, next_sibling: next, owner: who },
        ).update(p as int, star)
    }
}

pub proof fn lemma_replace_ship(b: Seq<Piece>, t: Key, n: Key, who: Player)
    requires
        wf_board(b),
        t < 36,
        b[t as int] is Ship,
        n < 36,
        b[n as int] is Empty,
    ensures
        wf_board(replace_ship(b, t, n, who)),
{
    let b2 = replace_ship(b, t, n, who);
    let p = parent_of(b, t as int) as int;
    let next = next_of(b, t as int);
    let r = lemma_ring_from(b, t as int);
    let len = r.len() as int;
    lemma_prev(b, t, r);
    lemma_ring_at(b, p, r, 0);
    lemma_ring_at(b, p, r, len - 1);
    assert(slot_ok(b, t as int));
    assert(slot_ok(b, p));
    assert(ship_of(b, t as int, p));
    let r2 = r.update(0, n);
    assert forall|i: int| 0 <= i < len implies r[i] != n by {
        lemma_ring_at(b, p, r, i);
    }
    assert(r2.no_duplicates());
    assert forall|i: int| 0 <= i < r2.len() implies #[trigger] link_ok(b2, p, r2, i) by {
        lemma_ring_at(b, p, r, i);
    }
    assert forall|k: Key| ship_of(b2, k as int, p) implies #[trigger] r2.contains(k) by {
        if k == n {
            assert(r2[0] == k);
        } else {
            let i = lemma_ring_index(b, p, r, k);
            assert(r2[i] == k);
        }
    }
    assert forall|k: int, q: int| #[trigger] ship_of(b2, k, q) implies (ship_of(b, k, q) && k != t)
        || (k == n && q == p) by {}
    assert forall|k: int| 0 <= k < 36 implies #[trigger] slot_ok(b2, k) by {
        assert(slot_ok(b, k));
        if b2[k] is Ship {
            assert(ship_of(b2, k, parent_of(b2, k) as int));
        }
    }
    assert forall|k: int| 0 <= k < 36 && b2[k] is Ship && parent_of(b2, k) != p implies #[trigger] kept(
        b,
        b2,
        k,
    ) by {
        assert(ship_of(b2, k, parent_of(b2, k) as int));
    }
    assert forall|k: int| 0 <= k < 36 && b[k] is Ship && parent_of(b, k) != p implies #[trigger] kept(
        b,
        b2,
        k,
    ) by {}
    lemma_edit(b, b2, p, p, r2);
}

/// The board on which the piece `n`, taken from the stock, is the first star
/// of a new binary system.
pub open spec fn place_first(b: Seq<Piece>, n: Key) -> Seq<Piece> {
    b.update(n as int, Piece::BinaryFirst { child: None, sibling: None })
}

/// The board on which the piece `n`, taken from the stock, is the second star
/// of the system whose first star is `s`.
pub open spec fn place_second(b: Seq<Piece>, s: Key, n: Key) -> Seq<Piece> {
    b.update(n as int, Piece::BinarySecond { sibling: s }).update(
        s as int,
        Piece::BinaryFirst { child: b[s as int].child(), sibling: Some(n) },
    )
}

/// No ship stands at a piece that is in the stock.
pub proof fn lemma_no_ship_at_empty(b: Seq<Piece>, n: int)
    requires
        wf_board(b),
        0 <= n < 36,
        !b[n].hosts(),
    ensures
        forall|k: int| !#[trigger] ship_of(b, k, n),
{
    assert forall|k: int| !#[trigger] ship_of(b, k, n) by {
        if ship_of(b, k, n) {
            assert(slot_ok(b, k));
        }
    }
}

pub proof fn lemma_place_first(b: Seq<Piece>, n: Key)
    requires
        wf_board(b),
        n < 36,
        b[n as int] is Empty,
    ensures
        wf_board(place_first(b, n)),
{
    let b2 = place_first(b, n);
    let r2 = Seq::<Key>::empty();
    lemma_no_ship_at_empty(b, n as int);
    assert forall|k: int, q: int| #[trigger] ship_of(b2, k, q) implies ship_of(b, k, q) by {}
    assert(is_ring(b2, n as int, r2));
    assert forall|k: int| 0 <= k < 36 implies #[trigger] slot_ok(b2, k) by {
        assert(slot_ok(b, k));
    }
    assert forall|k: int| 0 <= k < 36 && b2[k] is Ship implies #[trigger] kept(b, b2, k) by {}
    assert forall|k: int| 0 <= k < 36 && b[k] is Ship implies #[trigger] kept(b, b2, k) by {}
    lemma_edit(b, b2, n as int, n as int, r2);
}

pub proof fn lemma_place_second(b: Seq<Piece>, s: Key, n: Key)
    requires
        wf_board(b),
        s < 36,
        b[s as int] is BinaryFirst,
        partner_of(b, s as int) is None,
        n < 36,
        b[n as int] is Empty,
    ensures
        wf_board(place_second(b, s, n)),
{
    let b2 = place_second(b, s, n);
    lemma_no_ship_at_empty(b, n as int);
    let r2 = lemma_ring_of(b, s as int);
    assert forall|k: int, q: int| #[trigger] ship_of(b2, k, q) implies ship_of(b, k, q) by {}
    assert forall|k: int, q: int| #[trigger] ship_of(b, k, q) implies ship_of(b2, k, q) by {}
    lemma_ring_frame(b, b2, s as int, r2);
    assert forall|k: int| 0 <= k < 36 implies #[trigger] slot_ok(b2, k) by {
        assert(slot_ok(b, k));
        if b[k] is BinarySecond {
            assert(partner_of(b, s as int) != Some(k as Key));
        }
    }
    assert forall|k: int| 0 <= k < 36 && b2[k] is Ship implies #[trigger] kept(b, b2, k) by {}
    assert forall|k: int| 0 <= k < 36 && b[k] is Ship implies #[trigger] kept(b, b2, k) by {}
    lemma_edit(b, b2, s as int, s as int, r2);
}

/// The board without the system `p`: its stars and all its ships are back in
/// the stock.
pub open spec fn scatter(b: Seq<Piece>, p: Key) -> Seq<Piece> {
    Seq::new(
        36,
        |k: int|
            if k == p || ship_of(b, k, p as int) || partner_of(b, p as int) == Some(k as Key) {
                Piece::Empty
            } else {
                b[k]
            },
    )
}

/// The board on which the first star `p` of a binary system is back in the
/// stock and its other half `x` carries the system's ships alone.
pub open spec fn promote(b: Seq<Piece>, p: Key, x: Key) -> Seq<Piece> {
    Seq::new(
        36,
        |k: int|
            if k == p {
                Piece::Empty
            } else if k == x {
                Piece::BinaryFirst { child: b[p as int].child(), sibling: None }
            } else if ship_of(b, k, p as int) {
                Piece::Ship { parent: x, next_sibling: next_of(b, k), owner: owner_of(b, k) }
            } else {
                b[k]
            },
    )
}

/// The board on which the second star `x` of the binary system `p` is back in
/// the stock.
pub open spec fn drop_second(b: Seq<Piece>, p: Key, x: Key) -> Seq<Piece> {
    b.update(x as int, Piece::Empty).update(
        p as int,
        Piece::BinaryFirst { child: b[p as int].child(), sibling: None },
    )
}

pub proof fn lemma_scatter(b: Seq<Piece>, p: Key)
    requires
        wf_board(b),
        p < 36,
        b[p as int].hosts() || b[p as int] is Empty,
    ensures
        wf_board(scatter(b, p)),
{
    let b2 = scatter(b, p);
    if b[p as int] is Empty {
        lemma_no_ship_at_empty(b, p as int);
        assert(b2 =~= b);
    } else {
        assert(slot_ok(b, p as int));
        assert forall|k: int, q: int| #[trigger] ship_of(b2, k, q) implies ship_of(b, k, q) && q
            != p by {}
        assert forall|k: int| 0 <= k < 36 implies #[trigger] slot_ok(b2, k) by {
            assert(slot_ok(b, k));
            match b[k] {
                Piece::BinaryFirst { sibling: Some(x), .. } => {
                    assert(slot_ok(b, x as int));
                },
                Piece::BinarySecond { sibling } => {
                    assert(slot_ok(b, sibling as int));
                },
                _ => {},
            }
        }
        assert forall|k: int| 0 <= k < 36 && b2[k] is Ship && parent_of(b2, k) != p implies #[trigger] kept(
            b,
            b2,
            k,
        ) by {}
        assert forall|k: int| 0 <= k < 36 && b[k] is Ship && parent_of(b, k) != p implies #[trigger] kept(
            b,
            b2,
            k,
        ) by {}
        lemma_edit(b, b2, p as int, p as int, Seq::empty());
    }
}

pub proof fn lemma_promote(b: Seq<Piece>, p: Key, x: Key)
    requires
        wf_board(b),
        p < 36,
        b[p as int] is BinaryFirst,
        partner_of(b, p as int) == Some(x),
    ensures
        wf_board(promote(b, p, x)),
{
    let b2 = promote(b, p, x);
    assert(slot_ok(b, p as int));
    let r = lemma_ring_of(b, p as int);
    lemma_no_ship_at_empty(b, x as int);
    assert forall|k: int, q: int| #[trigger] ship_of(b2, k, q) implies (q != x && q != p && ship_of(
        b,
        k,
        q,
    )) || (q == x && ship_of(b, k, p as int)) by {
        assert(!ship_of(b, k, x as int));
    }
    assert forall|i: int| 0 <= i < r.len() implies #[trigger] link_ok(b2, x as int, r, i) by {
        lemma_ring_at(b, p as int, r, i);
    }
    assert forall|k: Key| ship_of(b2, k as int, x as int) implies #[trigger] r.contains(k) by {
        let i = lemma_ring_index(b, p as int, r, k);
    }
    assert(is_ring(b2, x as int, r));
    assert forall|k: int| 0 <= k < 36 implies #[trigger] slot_ok(b2, k) by {
        assert(slot_ok(b, k));
        match b[k] {
            Piece::BinaryFirst { sibling: Some(y), .. } => {
                assert(slot_ok(b, y as int));
            },
            Piece::BinarySecond { sibling } => {
                assert(slot_ok(b, sibling as int));
            },
            _ => {},
        }
    }
    assert forall|k: int| 0 <= k < 36 && b2[k] is Ship && parent_of(b2, k) != x implies #[trigger] kept(
        b,
        b2,
        k,
    ) by {}
    assert forall|k: int| 0 <= k < 36 && b[k] is Ship && parent_of(b, k) != p implies #[trigger] kept(
        b,
        b2,
        k,
    ) by {}
    lemma_edit(b, b2, p as int, x as int, r);
}

pub proof fn lemma_drop_second(b: Seq<Piece>, p: Key, x: Key)
    requires
        wf_board(b),
        p < 36,
        b[p as int] is BinaryFirst,
        partner_of(b, p as int) == Some(x),
    ensures
        wf_board(drop_second(b, p, x)),
{
    let b2 = drop_second(b, p, x);
    assert(slot_ok(b, p as int));
    let r = lemma_ring_of(b, p as int);
    lemma_no_ship_at_empty(b, x as int);
    assert forall|k: int, q: int| #[trigger] ship_of(b2, k, q) implies ship_of(b, k, q) by {}
    assert forall|k: int, q: int| #[trigger] ship_of(b, k, q) implies ship_of(b2, k, q) by {}
    lemma_ring_frame(b, b2, p as int, r);
    assert forall|k: int| 0 <= k < 36 implies #[trigger] slot_ok(b2, k) by {
        assert(slot_ok(b, k));
        match b[k] {
            Piece::BinaryFirst { sibling: Some(y), .. } => {
                assert(slot_ok(b, y as int));
            },
            Piece::BinarySecond { sibling } => {
                assert(slot_ok(b, sibling as int));
            },
            _ => {},
        }
    }
    assert forall|k: int| 0 <= k < 36 && b2[k] is Ship implies #[trigger] kept(b, b2, k) by {}
    assert forall|k: int| 0 <= k < 36 && b[k] is Ship implies #[trigger] kept(b, b2, k) by {}
    lemma_edit(b, b2, p as int, p as int, r);
}

/// The removal of a ship leaves the ships of other systems as they were.
pub proof fn lemma_remove_keeps_others(b: Seq<Piece>, s: Key, k: int)
    requires
        wf_board(b),
        s < 36,
        b[s as int] is Ship,
        0 <= k < 36,
        b[k] is Ship,
        parent_of(b, k) != parent_of(b, s as int),
    ensures
        remove_ship(b, s)[k] == b[k],
{
    let r = lemma_ring_from(b, s as int);
    lemma_prev(b, s, r);
    lemma_ring_at(b, parent_of(b, s as int) as int, r, r.len() - 1);
    assert(slot_ok(b, s as int));
}

} // verus!
