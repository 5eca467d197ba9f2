//! The field that records how late each cell was last alive.
//!
//! A cell holds the number of the last recorded generation in which it was
//! alive, counted from one, and zero if it never was. Divided by the number
//! of recorded generations this is the cell's fraction between 0 and 1.

use vstd::prelude::*;
use crate::grids::cell_grid::Cellgrid;
use crate::grids::{lemma_area_positive, lemma_point_at_index, point_at, Grid};

verus! {

/// `field` with `frac` written over the live cells of `board`.
pub open spec fn overlaid(field: Seq<usize>, board: Seq<bool>, frac: usize) -> Seq<usize> {
    Seq::new(
        field.len(),
        |i: int|
            if board[i] {
                frac
            } else {
                field[i]
            },
    )
}

pub type FracGrid = Grid<usize, FracGridImpl>;

/// Marks a grid as a field of fractions.
pub struct FracGridImpl;

impl FracGrid {
    /// Writes `frac` into every cell that is alive in `cell_grid`.
    pub fn overlay(&mut self, cell_grid: &Cellgrid, frac: usize)
        requires
            old(self).wf(),
            cell_grid.wf(),
            cell_grid.dimensions == old(self).dimensions,
        ensures
            final(self).wf(),
            final(self).dimensions == old(self).dimensions,
            final(self)@ == overlaid(old(self)@, cell_grid@, frac),
    {
        let points = self.get_points();
        let ghost dims = self.dimensions;
        let mut i: usize = 0;
        while i < points.len()
            invariant
                self.wf(),
                cell_grid.wf(),
                self.dimensions == dims,
                cell_grid.dimensions == dims,
                dims == old(self).dimensions,
                i <= points@.len(),
                points@.len() == dims.area(),
                forall|j: int| 0 <= j < points@.len() ==> #[trigger] points@[j] == point_at(dims, j),
                forall|j: int|
                    0 <= j < dims.area() ==> #[trigger] self@[j] == (if j < i && cell_grid@[j] {
                        frac
                    } else {
                        old(self)@[j]
                    }),
            decreases points@.len() - i,
        {
            let p = points[i];
            proof {
                lemma_point_at_index(dims, i as int);
            }
            if *cell_grid.get_value(p) {
                self.set_value(frac, p);
            }
            i += 1;
        }
        assert(self@ =~= overlaid(old(self)@, cell_grid@, frac));
    }

    /// The smallest and the largest value in the field.
    pub fn value_range(&self) -> (range: (usize, usize))
        requires
            self.wf(),
        ensures
            forall|j: int| 0 <= j < self@.len() ==> range.0 <= #[trigger] self@[j] <= range.1,
            exists|j: int| 0 <= j < self@.len() && self@[j] == range.0,
            exists|j: int| 0 <= j < self@.len() && self@[j] == range.1,
    {
        proof {
            lemma_area_positive(self.dimensions);
        }
        let cells: usize = self.storage.len();
        let mut low: usize = self.storage[0];
        let mut high: usize = self.storage[0];
        let ghost mut at_low: int = 0;
        let ghost mut at_high: int = 0;
        let mut i: usize = 1;
        while i < cells
            invariant
                cells == self@.len(),
                1 <= i <= cells,
                forall|j: int| 0 <= j < i ==> low <= #[trigger] self@[j] <= high,
                0 <= at_low < i && self@[at_low] == low,
                0 <= at_high < i && self@[at_high] == high,
            decreases cells - i,
        {
            let value: usize = self.storage[i];
            if value < low {
                low = value;
                proof {
                    at_low = i as int;
                }
            }
            if value > high {
                high = value;
                proof {
                    at_high = i as int;
                }
            }
            i += 1;
        }
        (low, high)
    }
}

} // verus!
