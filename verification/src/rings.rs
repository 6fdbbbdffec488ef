//! What makes a board well formed, stated over its thirty-six slots, and the
//! elementary edits of a ring of ships with the proofs that they keep it so.

use vstd::prelude::*;
use crate::kinds::{Key, Player};
use crate::position::Piece;

verus! {

/// Slot `k` holds a ship that stands at the system `p`.
pub open spec fn ship_of(b: Seq<Piece>, k: int, p: int) -> bool {
    &&& 0 <= k < 36
    &&& b[k] matches Piece::Ship { parent, .. }
    &&& parent == p
}

pub open spec fn parent_of(b: Seq<Piece>, k: int) -> Key {
    match b[k] {
        Piece::Ship { parent, .. } => parent,
        _ => 0,
    }
}

pub open spec fn next_of(b: Seq<Piece>, k: int) -> Key {
    match b[k] {
        Piece::Ship { next_sibling, .. } => next_sibling,
        _ => 0,
    }
}

pub open spec fn owner_of(b: Seq<Piece>, k: int) -> Player {
    match b[k] {
        Piece::Ship { owner, .. } => owner,
        _ => Player::White,
    }
}

/// The other half that a first half of a binary system names.
pub open spec fn partner_of(b: Seq<Piece>, k: int) -> Option<Key> {
    match b[k] {
        Piece::BinaryFirst { sibling, .. } => sibling,
        _ => None,
    }
}

/// The element that follows position `i` when `r` is read as a ring.
pub open spec fn follower(r: Seq<Key>, i: int) -> Key {
    if i + 1 < r.len() {
        r[i + 1]
    } else {
        r[0]
    }
}

/// The element at position `i` of `r` is a ship at `p` whose follower on the
/// board is its follower in `r`.
pub open spec fn link_ok(b: Seq<Piece>, p: int, r: Seq<Key>, i: int) -> bool {
    &&& ship_of(b, r[i] as int, p)
    &&& next_of(b, r[i] as int) == follower(r, i)
}

/// `r` lists, once each and in ring order, exactly the ships at system `p`.
pub open spec fn is_ring(b: Seq<Piece>, p: int, r: Seq<Key>) -> bool {
    &&& r.no_duplicates()
    &&& forall|i: int| 0 <= i < r.len() ==> #[trigger] link_ok(b, p, r, i)
    &&& forall|k: Key| ship_of(b, k as int, p) ==> #[trigger] r.contains(k)
}

/// The entry that star `p` names is a ship of `p`; a star that names none has
/// no ship.
pub open spec fn child_ok(b: Seq<Piece>, p: int, child: Option<Key>) -> bool {
    match child {
        Some(c) => ship_of(b, c as int, p),
        None => forall|k: int| !#[trigger] ship_of(b, k, p),
    }
}

/// The references that slot `k` holds lead to pieces of the right kind.
pub open spec fn slot_ok(b: Seq<Piece>, k: int) -> bool {
    match b[k] {
        Piece::Empty => true,
        Piece::Star { child } => child_ok(b, k, child),
        Piece::BinaryFirst { child, sibling } => {
            &&& child_ok(b, k, child)
            &&& sibling matches Some(x) ==> x < 36 && b[x as int] == (Piece::BinarySecond {
                sibling: k as Key,
            })
        },
        Piece::BinarySecond { sibling } => {
            &&& sibling < 36
            &&& b[sibling as int] is BinaryFirst
            &&& partner_of(b, sibling as int) == Some(k as Key)
        },
        Piece::Ship { parent, .. } => parent < 36 && b[parent as int].hosts(),
    }
}

/// Every slot is sound and the ships of every system form one ring.
pub open spec fn wf_board(b: Seq<Piece>) -> bool {
    &&& b.len() == 36
    &&& forall|k: int| 0 <= k < 36 ==> #[trigger] slot_ok(b, k)
    &&& forall|p: int| 0 <= p < 36 && #[trigger] b[p].hosts() ==> exists|r: Seq<Key>| is_ring(b, p, r)
}

/// What a ring says of its element at position `i`.
pub proof fn lemma_ring_at(b: Seq<Piece>, p: int, r: Seq<Key>, i: int)
    requires
        is_ring(b, p, r),
        0 <= i < r.len(),
    ensures
        ship_of(b, r[i] as int, p),
        next_of(b, r[i] as int) == follower(r, i),
{
    assert(link_ok(b, p, r, i));
}

/// Where a ship of the system stands in its ring.
pub proof fn lemma_ring_index(b: Seq<Piece>, p: int, r: Seq<Key>, k: Key) -> (i: int)
    requires
        is_ring(b, p, r),
        ship_of(b, k as int, p),
    ensures
        0 <= i < r.len(),
        r[i] == k,
{
    assert(r.contains(k));
    choose|i: int| 0 <= i < r.len() && r[i] == k
}

/// The ring of `r` read from position `j` onwards.
pub open spec fn rotate(r: Seq<Key>, j: int) -> Seq<Key> {
    Seq::new(
        r.len(),
        |i: int|
            if i + j < r.len() {
                r[i + j]
            } else {
                r[i + j - r.len()]
            },
    )
}

proof fn lemma_rotate_at(r: Seq<Key>, j: int, i: int)
    requires
        0 <= j < r.len(),
        0 <= i < r.len(),
    ensures
        rotate(r, j)[i] == r[if i + j < r.len() { i + j } else { i + j - r.len() }],
        rotate(r, j).len() == r.len(),
{
}

proof fn lemma_rotate_distinct(r: Seq<Key>, j: int)
    requires
        r.no_duplicates(),
        0 <= j < r.len(),
    ensures
        rotate(r, j).no_duplicates(),
{
    let s = rotate(r, j);
    let n = r.len() as int;
    assert forall|i: int, k: int| 0 <= i < s.len() && 0 <= k < s.len() && i != k implies s[i]
        != s[k] by {
        lemma_rotate_at(r, j, i);
        lemma_rotate_at(r, j, k);
    }
}

pub proof fn lemma_rotate(b: Seq<Piece>, p: int, r: Seq<Key>, j: int)
    requires
        is_ring(b, p, r),
        0 <= j < r.len(),
    ensures
        is_ring(b, p, rotate(r, j)),
        rotate(r, j).len() == r.len(),
        rotate(r, j)[0] == r[j],
{
    let s = rotate(r, j);
    let n = r.len() as int;
    lemma_rotate_distinct(r, j);
    lemma_rotate_at(r, j, 0);
    assert forall|i: int| 0 <= i < s.len() implies #[trigger] link_ok(b, p, s, i) by {
        let a = if i + j < n { i + j } else { i + j - n };
        lemma_rotate_at(r, j, i);
        lemma_ring_at(b, p, r, a);
        if i + 1 < n {
            lemma_rotate_at(r, j, i + 1);
        }
    }
    assert forall|k: Key| ship_of(b, k as int, p) implies #[trigger] s.contains(k) by {
        let a = lemma_ring_index(b, p, r, k);
        let i = if a >= j { a - j } else { a - j + n };
        lemma_rotate_at(r, j, i);
        assert(s[i] == k);
    }
}

/// A well-formed board has a ring for each of its systems.
pub proof fn lemma_ring_of(b: Seq<Piece>, p: int) -> (r: Seq<Key>)
    requires
        wf_board(b),
        0 <= p < 36,
        b[p].hosts(),
    ensures
        is_ring(b, p, r),
{
    choose|r: Seq<Key>| is_ring(b, p, r)
}

/// A well-formed board has, for each ship, the ring of its system read from
/// that ship.
pub proof fn lemma_ring_from(b: Seq<Piece>, t: int) -> (r: Seq<Key>)
    requires
        wf_board(b),
        0 <= t < 36,
        b[t] is Ship,
    ensures
        is_ring(b, parent_of(b, t) as int, r),
        r.len() > 0,
        r[0] == t,
{
    let p = parent_of(b, t) as int;
    assert(slot_ok(b, t));
    assert(b[p].hosts());
    let r0 = choose|r: Seq<Key>| is_ring(b, p, r);
    let j = lemma_ring_index(b, p, r0, t as Key);
    lemma_rotate(b, p, r0, j);
    rotate(r0, j)
}

/// A ring is carried over to a board on which the system has the same ships
/// with the same followers.
pub proof fn lemma_ring_frame(b: Seq<Piece>, b2: Seq<Piece>, p: int, r: Seq<Key>)
    requires
        is_ring(b, p, r),
        forall|k: int| #[trigger]
            ship_of(b, k, p) ==> ship_of(b2, k, p) && next_of(b2, k) == next_of(b, k),
        forall|k: int| #[trigger] ship_of(b2, k, p) ==> ship_of(b, k, p),
    ensures
        is_ring(b2, p, r),
{
    assert forall|i: int| 0 <= i < r.len() implies #[trigger] link_ok(b2, p, r, i) by {
        lemma_ring_at(b, p, r, i);
    }
    assert forall|k: Key| ship_of(b2, k as int, p) implies #[trigger] r.contains(k) by {
        let i = lemma_ring_index(b, p, r, k);
    }
}

} // verus!
