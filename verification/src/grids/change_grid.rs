//! The cells that have to be worked out anew in a generation.

use vstd::prelude::*;
use crate::colors::Pixel;
use crate::grids::{in_neighborhood, neighbor, point_at, ColorValues, Grid};
use crate::grids::{lemma_neighbor_inside, lemma_point_at_index};
use crate::{Dimensions, Point};

verus! {

/// Cell `j` lies in the neighbourhood of a cell that differs between `board`
/// and `next`.
pub open spec fn touched(board: Seq<bool>, next: Seq<bool>, dims: Dimensions, j: int) -> bool {
    exists|c: int|
        0 <= c < board.len() && board[c] != #[trigger] next[c] && in_neighborhood(
            dims,
            point_at(dims, c),
            point_at(dims, j),
        )
}

/// The marks for the generation after `next`: the neighbourhoods of all
/// cells that changed from `board` to `next`.
pub open spec fn spread(board: Seq<bool>, next: Seq<bool>, dims: Dimensions) -> Seq<bool> {
    Seq::new(board.len(), |j: int| touched(board, next, dims, j))
}

/// Cell `j` lies in the neighbourhood of one of the first `n` cells that
/// differs between `board` and `next`.
pub open spec fn reached(board: Seq<bool>, next: Seq<bool>, dims: Dimensions, j: int, n: int) -> bool
    decreases n,
{
    n > 0 && (reached(board, next, dims, j, n - 1) || (board[n - 1] != next[n - 1]
        && in_neighborhood(dims, point_at(dims, n - 1), point_at(dims, j))))
}

/// `reached` says that a changed cell among the first `n` has `j` in its
/// neighbourhood.
pub proof fn lemma_reached(board: Seq<bool>, next: Seq<bool>, dims: Dimensions, j: int, n: int)
    requires
        0 <= n,
    ensures
        reached(board, next, dims, j, n) <==> exists|c: int|
            0 <= c < n && board[c] != #[trigger] next[c] && in_neighborhood(
                dims,
                point_at(dims, c),
                point_at(dims, j),
            ),
    decreases n,
{
    if n > 0 {
        lemma_reached(board, next, dims, j, n - 1);
    }
}

/// Over all cells, `reached` is `touched`.
pub proof fn lemma_reached_all(board: Seq<bool>, next: Seq<bool>, dims: Dimensions, j: int, n: int)
    requires
        n == board.len(),
        0 <= j < n,
    ensures
        reached(board, next, dims, j, n) == spread(board, next, dims)[j],
{
    lemma_reached(board, next, dims, j, n);
}

pub type ChangeGrid = Grid<bool, ChangeGridImpl>;

/// Marks a grid as a record of changes.
pub struct ChangeGridImpl;

impl ChangeGrid {
    /// Marks the nine cells around and including `point`.
    pub fn set_changed(&mut self, point: Point)
        requires
            old(self).wf(),
            old(self).dimensions.contains(point),
        ensures
            final(self).wf(),
            final(self).dimensions == old(self).dimensions,
            final(self)@.len() == old(self)@.len(),
            forall|j: int|
                0 <= j < old(self)@.len() ==> #[trigger] final(self)@[j] == (old(self)@[j]
                    || in_neighborhood(old(self).dimensions, point, point_at(old(self).dimensions, j))),
    {
        let cells = self.get_neighborhood(point);
        let ghost dims = self.dimensions;
        let mut k: usize = 0;
        while k < 9
            invariant
                self.wf(),
                self.dimensions == dims,
                dims == old(self).dimensions,
                dims.contains(point),
                self@.len() == old(self)@.len(),
                k <= 9,
                cells@.len() == 9,
                forall|i: int|
                    0 <= i < 9 ==> #[trigger] cells@[i] == (i == 4, neighbor(dims, point, i)),
                forall|j: int|
                    0 <= j < self@.len() ==> #[trigger] self@[j] == (old(self)@[j] || exists|i: int|
                        0 <= i < k && #[trigger] neighbor(dims, point, i) == point_at(dims, j)),
            decreases 9 - k,
        {
            let (_, p) = cells[k];
            let ghost before = self@;
            proof {
                lemma_neighbor_inside(dims, point, k as int);
                crate::grids::lemma_index_of_point(dims, p);
            }
            self.set_value(true, p);
            proof {
                assert forall|j: int| 0 <= j < self@.len() implies #[trigger] self@[j] == (old(
                    self,
                )@[j] || exists|i: int|
                    0 <= i < k + 1 && #[trigger] neighbor(dims, point, i) == point_at(dims, j)) by {
                    lemma_point_at_index(dims, j);
                    if j == dims.index_of(p) {
                        assert(neighbor(dims, point, k as int) == point_at(dims, j));
                    } else {
                        assert(self@[j] == before[j]);
                        assert(neighbor(dims, point, k as int) != point_at(dims, j));
                    }
                }
            }
            k += 1;
        }
    }
}

impl ColorValues<bool> for ChangeGridImpl {
    /// Marked cells are red, the others blue.
    open spec fn color_of(value: bool) -> Pixel {
        if value {
            Pixel::new(255, 0, 0)
        } else {
            Pixel::new(0, 0, 255)
        }
    }

    fn color_for_value(value: &bool) -> (pixel: Pixel) {
        if *value {
            Pixel::new(255, 0, 0)
        } else {
            Pixel::new(0, 0, 255)
        }
    }
}

} // verus!
