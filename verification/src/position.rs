//! The board: thirty-six slots, one per piece, holding stars, the two halves
//! of a binary system, and ships linked into one ring per system.

use vstd::prelude::*;
use vstd::pervasive::unreached;
use crate::kinds::{first_key, Color, Key, Player, Size};
use crate::rings::{is_ring, lemma_ring_at, lemma_ring_from, parent_of, wf_board};

verus! {

/// What a slot of the board holds.
#[allow(inconsistent_fields)]
#[derive(Clone, Copy, PartialEq, Eq, Debug)]
pub enum Piece {
    /// The piece is in the stock.
    Empty,
    /// A single star; `child` is one ship of the ring at this star.
    Star { child: Option<Key> },
    /// The half of a binary system that carries the ships; `sibling` is the
    /// other half.
    BinaryFirst { child: Option<Key>, sibling: Option<Key> },
    /// The other half of a binary system; `sibling` is the first half.
    BinarySecond { sibling: Key },
    /// A ship at the system `parent`, followed in that system's ring by
    /// `next_sibling`; alone in its ring it follows itself.
    Ship { parent: Key, next_sibling: Key, owner: Player },
}

impl Piece {
    /// Whether ships can stand at this piece.
    pub open spec fn hosts(self) -> bool {
        self is Star || self is BinaryFirst
    }

    /// The ship that a star names as the entry of its ring.
    pub open spec fn child(self) -> Option<Key> {
        match self {
            Piece::Star { child } => child,
            Piece::BinaryFirst { child, .. } => child,
            _ => None,
        }
    }

    /// The same star with another entry to its ring.
    pub open spec fn with_child(self, child: Option<Key>) -> Piece {
        match self {
            Piece::Star { .. } => Piece::Star { child },
            Piece::BinaryFirst { sibling, .. } => Piece::BinaryFirst { child, sibling },
            _ => self,
        }
    }

    /// The same ship followed by another.
    pub open spec fn with_next(self, next: Key) -> Piece {
        match self {
            Piece::Ship { parent, owner, .. } => Piece::Ship { parent, next_sibling: next, owner },
            _ => self,
        }
    }

    pub fn is_star(self) -> (r: bool)
        ensures
            r == self.hosts(),
    {
        match self {
            Piece::Star { .. } => true,
            Piece::BinaryFirst { .. } => true,
            _ => false,
        }
    }

    pub fn is_empty(self) -> (r: bool)
        ensures
            r == (self is Empty),
    {
        match self {
            Piece::Empty => true,
            _ => false,
        }
    }

    pub fn get_child(self) -> (r: Option<Key>)
        ensures
            r == self.child(),
    {
        match self {
            Piece::Star { child } => child,
            Piece::BinaryFirst { child, .. } => child,
            _ => None,
        }
    }

    pub fn set_child(self, child: Option<Key>) -> (r: Piece)
        ensures
            r == self.with_child(child),
    {
        match self {
            Piece::Star { .. } => Piece::Star { child },
            Piece::BinaryFirst { sibling, .. } => Piece::BinaryFirst { child, sibling },
            _ => self,
        }
    }

    pub fn set_next(self, next: Key) -> (r: Piece)
        ensures
            r == self.with_next(next),
    {
        match self {
            Piece::Ship { parent, owner, .. } => Piece::Ship { parent, next_sibling: next, owner },
            _ => self,
        }
    }
}

/// The lowest key in `lo..hi` whose piece is in the stock.
pub open spec fn first_empty(b: Seq<Piece>, lo: int, hi: int) -> Option<Key>
    decreases hi - lo,
{
    if lo >= hi {
        None
    } else if b[lo] is Empty {
        Some(lo as Key)
    } else {
        first_empty(b, lo + 1, hi)
    }
}

/// What [`first_empty`] finds is a piece of the stock in the range, and no
/// piece below it in the range is in the stock.
pub proof fn lemma_first_empty(b: Seq<Piece>, lo: int, hi: int)
    requires
        0 <= lo,
        hi <= 36,
    ensures
        match first_empty(b, lo, hi) {
            Some(n) => lo <= n < hi && b[n as int] is Empty && forall|k: int|
                lo <= k < n ==> !(#[trigger] b[k] is Empty),
            None => forall|k: int| lo <= k < hi ==> !(#[trigger] b[k] is Empty),
        },
    decreases hi - lo,
{
    if lo < hi && !(b[lo] is Empty) {
        lemma_first_empty(b, lo + 1, hi);
    }
}

/// A run of consecutive keys, handed out in ascending order.
#[derive(Clone, Copy, Debug)]
pub struct KeyRange {
    pub next: u8,
    pub end: u8,
}

impl KeyRange {
    pub fn new(start: u8, end: u8) -> (r: KeyRange)
        ensures
            r.next == start,
            r.end == end,
    {
        KeyRange { next: start, end }
    }

    /// The nine keys of a colour.
    pub fn with_color(color: Color) -> (r: KeyRange)
        ensures
            r.next == color.index() * 9,
            r.end == color.index() * 9 + 9,
    {
        let start: u8 = color.to_index() * 9;
        KeyRange::new(start, start + 9)
    }

    /// The three keys of a colour and size.
    pub fn with_color_and_size(color: Color, size: Size) -> (r: KeyRange)
        ensures
            r.next == first_key(size, color),
            r.end == first_key(size, color) + 3,
    {
        let start: u8 = color.to_index() * 9 + size.to_index() * 3;
        KeyRange::new(start, start + 3)
    }

    /// All thirty-six keys.
    pub fn all() -> (r: KeyRange)
        ensures
            r.next == 0,
            r.end == 36,
    {
        KeyRange::new(0, 36)
    }

    /// Hands out the lowest key that is left, if any.
    pub fn next(&mut self) -> (k: Option<Key>)
        ensures
            final(self).end == old(self).end,
            old(self).next < old(self).end ==> k == Some(old(self).next) && final(self).next
                == old(self).next + 1,
            old(self).next >= old(self).end ==> k.is_none() && final(self).next == old(self).next,
    {
        if self.next >= self.end {
            return None;
        }
        let v = Some(self.next);
        self.next += 1;
        v
    }
}

/// The thirty-six slots, indexed by key.
#[derive(Clone, Copy, Debug)]
pub struct Board {
    pieces: [Piece; 36],
}

impl View for Board {
    type V = Seq<Piece>;

    closed spec fn view(&self) -> Seq<Piece> {
        self.pieces@
    }
}

impl Board {
    /// The board before the first move: every piece in the stock.
    pub fn new() -> (b: Board)
        ensures
            b@ == Seq::new(36, |i: int| Piece::Empty),
    {
        let b = Board { pieces: [Piece::Empty;36] };
        assert(b@ =~= Seq::new(36, |i: int| Piece::Empty));
        b
    }

    pub proof fn lemma_len(self)
        ensures
            self@.len() == 36,
    {
    }

    pub fn get(&self, k: Key) -> (p: Piece)
        requires
            k < 36,
        ensures
            p == self@[k as int],
    {
        self.pieces[k as usize]
    }

    pub fn set(&mut self, k: Key, p: Piece)
        requires
            k < 36,
        ensures
            final(self)@ == old(self)@.update(k as int, p),
    {
        self.pieces[k as usize] = p;
    }

    /// The lowest key of the range whose piece is in the stock.
    pub fn find_empty(&self, range: KeyRange) -> (r: Option<Key>)
        requires
            range.end <= 36,
        ensures
            r == first_empty(self@, range.next as int, range.end as int),
    {
        let mut rest = range;
        loop
            invariant
                rest.end <= 36,
                first_empty(self@, rest.next as int, rest.end as int) == first_empty(
                    self@,
                    range.next as int,
                    range.end as int,
                ),
            decreases rest.end - rest.next,
        {
            match rest.next() {
                Some(k) => {
                    if self.get(k).is_empty() {
                        return Some(k);
                    }
                },
                None => {
                    return None;
                },
            }
        }
    }

    /// The ships of the system of the ship `start`, in ring order from
    /// `start` onwards.
    pub fn sibling_iter(&self, start: Key) -> (out: Vec<Key>)
        requires
            wf_board(self@),
            start < 36,
            self@[start as int] is Ship,
        ensures
            is_ring(self@, parent_of(self@, start as int) as int, out@),
            out@.len() > 0,
            out@[0] == start,
    {
        let ghost p = parent_of(self@, start as int) as int;
        let ghost r = lemma_ring_from(self@, start as int);
        let mut out: Vec<Key> = Vec::new();
        let mut cur = start;
        loop
            invariant_except_break
                out@.len() < r.len(),
                out@ == r.subrange(0, out@.len() as int),
                cur == r[out@.len() as int],
            invariant
                is_ring(self@, p, r),
                r.len() > 0,
                r[0] == start,
            ensures
                out@ == r,
            decreases r.len() - out@.len(),
        {
            let ghost i = out@.len() as int;
            proof {
                lemma_ring_at(self@, p, r, i);
            }
            out.push(cur);
            assert(out@ =~= r.subrange(0, i + 1));
            let next = match self.get(cur) {
                Piece::Ship { next_sibling, .. } => next_sibling,
                _ => unreached(),
            };
            if next == start {
                assert(i + 1 == r.len());
                assert(out@ =~= r);
                break ;
            }
            cur = next;
        }
        out
    }
}

} // verus!
