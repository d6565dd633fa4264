//! The rectangular character grid.  A `Frame` is both the emulator's live
//! screen and an immutable snapshot held by the timeline.

use vstd::prelude::*;

use crate::cell::{default_cell, spec_default_cell, Cell};

verus! {

/// A row of `width` default cells.
pub open spec fn spec_blank_row(width: nat) -> Seq<Cell> {
    Seq::new(width, |i: int| spec_default_cell())
}

/// A `height x width` grid of default cells.
pub open spec fn spec_blank_grid(width: nat, height: nat) -> Seq<Seq<Cell>> {
    Seq::new(height, |r: int| spec_blank_row(width))
}

/// A `height x width` array of cells.  The dimensions are fixed at
/// construction and never change.
#[derive(Debug)]
pub struct Frame {
    pub width: usize,
    pub height: usize,
    pub cells: Vec<Vec<Cell>>,
}

impl View for Frame {
    type V = Seq<Seq<Cell>>;

    closed spec fn view(&self) -> Seq<Seq<Cell>> {
        Seq::new(self.cells@.len(), |i: int| self.cells@[i]@)
    }
}

impl Frame {
    /// Shape invariant: exactly `height` rows of exactly `width` cells.
    pub open spec fn wf(&self) -> bool {
        &&& self@.len() == self.height
        &&& forall|r: int| 0 <= r < self@.len() ==> (#[trigger] self@[r]).len() == self.width
    }

    /// A fresh grid of default cells.
    pub fn new(width: usize, height: usize) -> (f: Frame)
        ensures
            f.wf(),
            f.width == width,
            f.height == height,
            f@ =~~= spec_blank_grid(width as nat, height as nat),
    {
        let mut cells: Vec<Vec<Cell>> = Vec::new();
        for r in 0..height
            invariant
                cells@.len() == r,
                forall|i: int| 0 <= i < r ==> (#[trigger] cells@[i])@ =~= spec_blank_row(
                    width as nat,
                ),
        {
            let mut row: Vec<Cell> = Vec::new();
            for c in 0..width
                invariant
                    row@.len() == c,
                    forall|j: int| 0 <= j < c ==> row@[j] == spec_default_cell(),
            {
                row.push(default_cell());
            }
            cells.push(row);
        }
        Frame { width, height, cells }
    }

    /// The cell at `(row, col)`, or `None` outside the grid.
    pub fn get_cell(&self, row: usize, col: usize) -> (c: Option<&Cell>)
        requires
            self.wf(),
        ensures
            if row < self.height && col < self.width {
                c == Some(&self@[row as int][col as int])
            } else {
                c.is_none()
            },
    {
        if row < self.height && col < self.width {
            proof {
                assert(self@[row as int] == self.cells@[row as int]@);
            }
            Some(&self.cells[row][col])
        } else {
            None
        }
    }

    /// Overwrites the cell at `(row, col)`.
    pub fn set_cell(&mut self, row: usize, col: usize, cell: Cell)
        requires
            old(self).wf(),
            row < old(self).height,
            col < old(self).width,
        ensures
            final(self).wf(),
            final(self).width == old(self).width,
            final(self).height == old(self).height,
            final(self)@ =~~= old(self)@.update(row as int, old(self)@[row as int].update(col as int, cell)),
    {
        let w = self.width;
        let mut new_row: Vec<Cell> = Vec::new();
        for c in 0..w
            invariant
                self == old(self),
                w == self.width,
                row < self@.len(),
                self@[row as int].len() == w,
                new_row@.len() == c,
                forall|j: int| 0 <= j < c && j != col ==> new_row@[j] == self@[row as int][j],
                col < c ==> new_row@[col as int] == cell,
        {
            if c == col {
                new_row.push(cell);
            } else {
                new_row.push(self.cells[row][c]);
            }
        }
        self.cells.set(row, new_row);
        proof {
            assert(self@ =~~= old(self)@.update(
                row as int,
                old(self)@[row as int].update(col as int, cell),
            ));
        }
    }

    /// Replaces a whole row.
    pub fn set_row(&mut self, row: usize, new_row: Vec<Cell>)
        requires
            old(self).wf(),
            row < old(self).height,
            new_row@.len() == old(self).width,
        ensures
            final(self).wf(),
            final(self).width == old(self).width,
            final(self).height == old(self).height,
            final(self)@ =~~= old(self)@.update(row as int, new_row@),
    {
        self.cells.set(row, new_row);
        proof {
            assert(self@ =~~= old(self)@.update(row as int, new_row@));
        }
    }

    /// Resets every cell to the default.
    pub fn clear(&mut self)
        requires
            old(self).wf(),
        ensures
            final(self).wf(),
            final(self).width == old(self).width,
            final(self).height == old(self).height,
            final(self)@ =~~= spec_blank_grid(old(self).width as nat, old(self).height as nat),
    {
        let w = self.width;
        let h = self.height;
        for r in 0..h
            invariant
                w == self.width,
                h == self.height,
                self.wf(),
                forall|i: int| 0 <= i < r ==> (#[trigger] self@[i]) =~= spec_blank_row(w as nat),
        {
            let blank = blank_row_vec(w);
            self.set_row(r, blank);
        }
        proof {
            assert(self@ =~~= spec_blank_grid(old(self).width as nat, old(self).height as nat));
        }
    }

    /// Removes the top row and appends a fresh blank row at the bottom.
    pub fn scroll_up(&mut self)
        requires
            old(self).wf(),
            old(self).height >= 1,
        ensures
            final(self).wf(),
            final(self).width == old(self).width,
            final(self).height == old(self).height,
            final(self)@ =~~= old(self)@.subrange(1, old(self).height as int).push(
                spec_blank_row(old(self).width as nat),
            ),
    {
        let w = self.width;
        let _ = self.cells.remove(0);
        let blank = blank_row_vec(w);
        self.cells.push(blank);
        proof {
            assert(self@ =~~= old(self)@.subrange(1, old(self).height as int).push(
                spec_blank_row(old(self).width as nat),
            ));
        }
    }

    /// An independent copy of the grid.
    pub fn snapshot(&self) -> (f: Frame)
        requires
            self.wf(),
        ensures
            f.wf(),
            f.width == self.width,
            f.height == self.height,
            f@ =~~= self@,
    {
        let h = self.height;
        let w = self.width;
        let mut cells: Vec<Vec<Cell>> = Vec::new();
        for r in 0..h
            invariant
                self.wf(),
                h == self.height,
                w == self.width,
                cells@.len() == r,
                forall|i: int| 0 <= i < r ==> (#[trigger] cells@[i])@ =~= self@[i],
        {
            let mut row: Vec<Cell> = Vec::new();
            for c in 0..w
                invariant
                    self.wf(),
                    h == self.height,
                    w == self.width,
                    r < self@.len(),
                    self@[r as int].len() == w,
                    row@.len() == c,
                    forall|j: int| 0 <= j < c ==> row@[j] == self@[r as int][j],
            {
                row.push(self.cells[r][c]);
            }
            cells.push(row);
        }
        Frame { width: w, height: h, cells }
    }
}

/// A freshly allocated row of `width` default cells.
pub fn blank_row_vec(width: usize) -> (row: Vec<Cell>)
    ensures
        row@ =~= spec_blank_row(width as nat),
{
    let mut row: Vec<Cell> = Vec::new();
    for c in 0..width
        invariant
            row@.len() == c,
            forall|j: int| 0 <= j < c ==> row@[j] == spec_default_cell(),
    {
        row.push(default_cell());
    }
    row
}

} // verus!
