//! The common stock: how many pieces of each size and colour are still
//! unused, kept as twelve two-bit counters in one word.

use vstd::prelude::*;
use crate::kinds::{Color, Size};

verus! {

/// Counters of the unused pieces, at most three of each size and colour.
///
/// The counter of a cell occupies two bits; the cell of a size and colour is
/// `color * 3 + size`, so the twelve counters fill the low 24 bits.
#[derive(Clone, Copy, Debug)]
pub struct Bank(u32);

/// Cell number of a size and colour, in `0..12`.
pub open spec fn cell_of(size: Size, color: Color) -> int {
    color.index() * 3 + size.index()
}

/// The two bits of a cell, as a number.
spec fn counter(bits: u32, cell: u32) -> u32 {
    (bits >> (2 * cell) as u32) & 3
}

proof fn lemma_full(c: u32)
    by (bit_vector)
    requires
        c < 12,
    ensures
        counter(0x00FF_FFFF, c) == 3,
{
}

proof fn lemma_mask(x: u32, c: u32)
    by (bit_vector)
    requires
        c < 12,
    ensures
        (x & (3u32 << (2 * c) as u32)) != 0 <==> counter(x, c) != 0,
        (x & (3u32 << (2 * c) as u32)) != (3u32 << (2 * c) as u32) <==> counter(x, c) != 3,
        counter(x, c) <= 3,
{
}

proof fn lemma_take(x: u32, c: u32, d: u32)
    by (bit_vector)
    requires
        c < 12,
        d < 12,
        counter(x, c) != 0,
    ensures
        x >= (1u32 << (2 * c) as u32),
        counter((x - (1u32 << (2 * c) as u32)) as u32, c) == (counter(x, c) - 1) as u32,
        c != d ==> counter((x - (1u32 << (2 * c) as u32)) as u32, d) == counter(x, d),
        x <= 0x00FF_FFFF ==> (x - (1u32 << (2 * c) as u32)) as u32 <= 0x00FF_FFFF,
{
}

proof fn lemma_give(x: u32, c: u32, d: u32)
    by (bit_vector)
    requires
        c < 12,
        d < 12,
        counter(x, c) != 3,
        x <= 0x00FF_FFFF,
    ensures
        x + (1u32 << (2 * c) as u32) <= 0x00FF_FFFF,
        counter((x + (1u32 << (2 * c) as u32)) as u32, c) == (counter(x, c) + 1) as u32,
        c != d ==> counter((x + (1u32 << (2 * c) as u32)) as u32, d) == counter(x, d),
{
}

impl Bank {
    /// No bit is set above the twelve counters.
    pub closed spec fn wf(self) -> bool {
        self.0 <= 0x00FF_FFFF
    }

    /// Unused pieces in a cell; `cell` is `color * 3 + size`.
    pub closed spec fn count_at(self, cell: int) -> int {
        counter(self.0, cell as u32) as int
    }

    /// Unused pieces of a size and colour.
    pub open spec fn count(self, size: Size, color: Color) -> int {
        self.count_at(cell_of(size, color))
    }

    /// Every counter lies in `0..=3`.
    pub proof fn lemma_count_range(self, cell: int)
        requires
            0 <= cell < 12,
        ensures
            0 <= self.count_at(cell) <= 3,
    {
        lemma_mask(self.0, cell as u32);
    }

    /// The full stock: three of every size and colour.
    pub fn new() -> (b: Bank)
        ensures
            b.wf(),
            forall|cell: int| 0 <= cell < 12 ==> #[trigger] b.count_at(cell) == 3,
    {
        let b = Bank(0x00FF_FFFF);
        assert forall|cell: int| 0 <= cell < 12 implies #[trigger] b.count_at(cell) == 3 by {
            lemma_full(cell as u32);
        }
        b
    }

    /// Bit offset of the counter of a size and colour.
    fn index(size: Size, color: Color) -> (i: u32)
        ensures
            i == 2 * cell_of(size, color),
            i <= 22,
    {
        let c: u32 = color.to_index() as u32;
        let s: u32 = size.to_index() as u32;
        2 * (c * 3 + s)
    }

    /// Whether a piece of this size and colour is left.
    pub fn available(&self, size: Size, color: Color) -> (r: bool)
        ensures
            r == (self.count(size, color) > 0),
    {
        let index = Bank::index(size, color);
        let mask: u32 = 3u32 << index;
        proof {
            lemma_mask(self.0, cell_of(size, color) as u32);
        }
        (self.0 & mask) != 0
    }

    /// Number of unused pieces of this size and colour.
    pub fn remaining(&self, size: Size, color: Color) -> (r: u8)
        ensures
            r == self.count(size, color),
            r <= 3,
    {
        let index = Bank::index(size, color);
        proof {
            lemma_mask(self.0, cell_of(size, color) as u32);
        }
        let v: u32 = (self.0 >> index) & 3;
        v as u8
    }

    /// Takes one piece of this size and colour out of the stock, if one is left.
    pub fn get(&mut self, size: Size, color: Color) -> (r: Option<()>)
        requires
            old(self).wf(),
        ensures
            final(self).wf(),
            r.is_some() == (old(self).count(size, color) > 0),
            r.is_some() ==> final(self).count(size, color) == old(self).count(size, color) - 1,
            r.is_none() ==> final(self).count(size, color) == old(self).count(size, color),
            forall|cell: int|
                0 <= cell < 12 && cell != cell_of(size, color) ==> #[trigger] final(self).count_at(
                    cell,
                ) == old(self).count_at(cell),
    {
        let index = Bank::index(size, color);
        let mask: u32 = 3u32 << index;
        let ghost c = cell_of(size, color) as u32;
        proof {
            lemma_mask(self.0, c);
        }
        if (self.0 & mask) != 0 {
            let ghost before = self.0;
            proof {
                lemma_take(before, c, c);
            }
            self.0 = self.0 - (1u32 << index);
            proof {
                assert forall|cell: int| 0 <= cell < 12 && cell != c implies #[trigger] self.count_at(
                    cell,
                ) == old(self).count_at(cell) by {
                    lemma_take(before, c, cell as u32);
                }
            }
            Some(())
        } else {
            None
        }
    }

    /// Returns one piece of this size and colour to the stock, unless all
    /// three are there already.
    pub fn put(&mut self, size: Size, color: Color) -> (r: Result<(), ()>)
        requires
            old(self).wf(),
        ensures
            final(self).wf(),
            r.is_ok() == (old(self).count(size, color) < 3),
            r.is_ok() ==> final(self).count(size, color) == old(self).count(size, color) + 1,
            r.is_err() ==> final(self).count(size, color) == old(self).count(size, color),
            forall|cell: int|
                0 <= cell < 12 && cell != cell_of(size, color) ==> #[trigger] final(self).count_at(
                    cell,
                ) == old(self).count_at(cell),
    {
        let index = Bank::index(size, color);
        let mask: u32 = 3u32 << index;
        let ghost c = cell_of(size, color) as u32;
        proof {
            lemma_mask(self.0, c);
        }
        if (self.0 & mask) != mask {
            let ghost before = self.0;
            proof {
                lemma_give(before, c, c);
            }
            self.0 = self.0 + (1u32 << index);
            proof {
                assert forall|cell: int| 0 <= cell < 12 && cell != c implies #[trigger] self.count_at(
                    cell,
                ) == old(self).count_at(cell) by {
                    lemma_give(before, c, cell as u32);
                }
            }
            Ok(())
        } else {
            Err(())
        }
    }
}

} // verus!
