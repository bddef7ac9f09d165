//! The delay lines of the Freeverb reverberator: where in the shared sample
//! buffers each filter keeps its history, and how its position moves.

use vstd::prelude::*;

verus! {

/// A delay line: a ring buffer over the cells `start..end` of a shared
/// buffer, and the offset (from `start`) of the cell it reads and writes next.
#[derive(Debug, Clone, Copy)]
pub struct DelayLine {
    start: usize,
    end: usize,
    offset: usize,
}

impl DelayLine {
    #[verifier::type_invariant]
    spec fn well_formed(self) -> bool {
        self.start < self.end && self.offset < self.end - self.start
    }

    /// The first cell of the line.
    pub closed spec fn first(self) -> nat {
        self.start as nat
    }

    /// One past the last cell of the line.
    pub closed spec fn last(self) -> nat {
        self.end as nat
    }

    /// The offset of the next cell from the first.
    pub closed spec fn cursor(self) -> nat {
        self.offset as nat
    }

    /// The line over the cells `start..end`, positioned at its first cell.
    pub fn new(start: usize, end: usize) -> (r: DelayLine)
        requires
            start < end,
        ensures
            r.first() == start,
            r.last() == end,
            r.cursor() == 0,
    {
        DelayLine { start, end, offset: 0 }
    }

    /// The number of cells of the line.
    pub fn len(&self) -> (n: usize)
        ensures
            n == self.last() - self.first(),
            n > 0,
            self.cursor() < n,
    {
        proof {
            use_type_invariant(self);
        }
        self.end - self.start
    }

    /// The cell of the shared buffer the line reads and writes next.
    pub fn position(&self) -> (p: usize)
        ensures
            p == self.first() + self.cursor(),
            self.first() <= p < self.last(),
    {
        proof {
            use_type_invariant(self);
        }
        self.start + self.offset
    }

    /// Moves to the next cell, wrapping around to the first after the last.
    pub fn advance(&mut self)
        ensures
            final(self).first() == old(self).first(),
            final(self).last() == old(self).last(),
            final(self).cursor() == (old(self).cursor() + 1) % (old(self).last() - old(self).first()) as nat,
    {
        proof {
            use_type_invariant(&*self);
        }
        let next = self.offset + 1;
        let len = self.end - self.start;
        if next >= len {
            proof {
                vstd::arithmetic::div_mod::lemma_mod_self_0(len as int);
            }
            self.offset = 0;
        } else {
            proof {
                vstd::arithmetic::div_mod::lemma_small_mod(next as nat, len as nat);
            }
            self.offset = next;
        }
    }
}

/// Whether two ranges of cells share no cell.
pub open spec fn apart(a: DelayLine, b: DelayLine) -> bool {
    a.last() <= b.first() || b.last() <= a.first()
}

/// Whether `lines` lie within `cells` cells and share no cell.
pub open spec fn tiles(lines: Seq<DelayLine>, cells: nat) -> bool {
    &&& forall|i: int| 0 <= i < lines.len() ==> #[trigger] lines[i].last() <= cells
    &&& forall|i: int, j: int| 0 <= i < j < lines.len() ==> apart(#[trigger] lines[i], #[trigger] lines[j])
}

/// The number of cells of the buffer shared by the comb filters.
pub const COMB_CELLS: usize = 22_232;

/// The number of cells of the buffer shared by the allpass filters.
pub const ALLPASS_CELLS: usize = 3218;

/// The cells `(first, last)` of the left comb filters in the standard tuning.
pub open spec fn comb_left_cells() -> Seq<(nat, nat)> {
    seq![(0, 1116), (2255, 3443), (4658, 5931), (7231, 8587), (9966, 11388), (12833, 14324), (15838, 17395), (18975, 20592)]
}

/// The cells `(first, last)` of the right comb filters in the standard tuning.
pub open spec fn comb_right_cells() -> Seq<(nat, nat)> {
    seq![(1116, 2255), (3443, 4658), (5931, 7231), (8587, 9966), (11388, 12833), (14324, 15838), (17395, 18975), (20592, 22232)]
}

/// The cells `(first, last)` of the left allpass filters in the standard tuning.
pub open spec fn allpass_left_cells() -> Seq<(nat, nat)> {
    seq![(0, 556), (1135, 1576), (2040, 2381), (2745, 2970)]
}

/// The cells `(first, last)` of the right allpass filters in the standard tuning.
pub open spec fn allpass_right_cells() -> Seq<(nat, nat)> {
    seq![(556, 1135), (1576, 2040), (2381, 2745), (2970, 3218)]
}

/// `lines` cover exactly the cells `cells`, in order, each at its first cell.
pub open spec fn lines_at(lines: Seq<DelayLine>, cells: Seq<(nat, nat)>) -> bool {
    &&& lines.len() == cells.len()
    &&& forall|i: int|
        0 <= i < lines.len() ==> (#[trigger] lines[i]).first() == cells[i].0 && lines[i].last()
            == cells[i].1 && lines[i].cursor() == 0
}

/// The delay lines of a stereo Freeverb: eight comb filters and four allpass
/// filters for each of the left and right channels.
pub struct FreeverbLines {
    pub comb_left: [DelayLine; 8],
    pub comb_right: [DelayLine; 8],
    pub allpass_left: [DelayLine; 4],
    pub allpass_right: [DelayLine; 4],
}

impl FreeverbLines {
    /// All comb filter lines, left then right.
    pub open spec fn combs(&self) -> Seq<DelayLine> {
        self.comb_left@ + self.comb_right@
    }

    /// All allpass filter lines, left then right.
    pub open spec fn allpasses(&self) -> Seq<DelayLine> {
        self.allpass_left@ + self.allpass_right@
    }

    /// The standard Freeverb tunings at 44.1 kHz, each line at its first cell.
    /// The comb lines lie within a buffer of `COMB_CELLS` cells and the
    /// allpass lines within one of `ALLPASS_CELLS` cells, and no two lines
    /// share a cell.
    pub fn new() -> (r: FreeverbLines)
        ensures
            lines_at(r.comb_left@, comb_left_cells()),
            lines_at(r.comb_right@, comb_right_cells()),
            lines_at(r.allpass_left@, allpass_left_cells()),
            lines_at(r.allpass_right@, allpass_right_cells()),
            tiles(r.combs(), COMB_CELLS as nat),
            tiles(r.allpasses(), ALLPASS_CELLS as nat),
    {
        let r = FreeverbLines {
            comb_left: [
                DelayLine::new(0, 1116),
                DelayLine::new(2255, 3443),
                DelayLine::new(4658, 5931),
                DelayLine::new(7231, 8587),
                DelayLine::new(9966, 11388),
                DelayLine::new(12833, 14324),
                DelayLine::new(15838, 17395),
                DelayLine::new(18975, 20592),
            ],
            comb_right: [
                DelayLine::new(1116, 2255),
                DelayLine::new(3443, 4658),
                DelayLine::new(5931, 7231),
                DelayLine::new(8587, 9966),
                DelayLine::new(11388, 12833),
                DelayLine::new(14324, 15838),
                DelayLine::new(17395, 18975),
                DelayLine::new(20592, 22232),
            ],
            allpass_left: [
                DelayLine::new(0, 556),
                DelayLine::new(1135, 1576),
                DelayLine::new(2040, 2381),
                DelayLine::new(2745, 2970),
            ],
            allpass_right: [
                DelayLine::new(556, 1135),
                DelayLine::new(1576, 2040),
                DelayLine::new(2381, 2745),
                DelayLine::new(2970, 3218),
            ],
        };
        assert(r.combs().len() == 16);
        assert(r.allpasses().len() == 8);
        r
    }
}

} // verus!
