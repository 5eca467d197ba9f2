//! The automaton's board: live and dead cells under the rule of Life on a
//! torus.

use vstd::prelude::*;
use crate::colors::Pixel;
use crate::grids::change_grid::ChangeGrid;
use crate::grids::{neighbor, point_at, ColorValues, Grid};
use crate::grids::{lemma_index_of_point, lemma_neighbor_inside, lemma_point_at_index};
use crate::utils::bits::{bit_at, pack, Aggregator, Enumerator};
use crate::{Dimensions, Point};

verus! {

/// The rule of Life: a live cell survives with two or three live neighbours,
/// a dead cell comes alive with exactly three.
pub open spec fn life_rule(alive: bool, neighbors: int) -> bool {
    if alive {
        neighbors == 2 || neighbors == 3
    } else {
        neighbors == 3
    }
}

/// Number of live cells among the first `n` entries of the neighbourhood of
/// `p`, the cell itself (entry 4) left out.
pub open spec fn live_among(board: Seq<bool>, dims: Dimensions, p: Point, n: int) -> int
    decreases n,
{
    if n <= 0 {
        0
    } else {
        live_among(board, dims, p, n - 1) + (if n - 1 != 4 && board[dims.index_of(
            neighbor(dims, p, n - 1),
        )] {
            1int
        } else {
            0int
        })
    }
}

/// Number of live cells among the eight neighbours of `p`.
pub open spec fn live_neighbors(board: Seq<bool>, dims: Dimensions, p: Point) -> int {
    live_among(board, dims, p, 9)
}

/// Whether cell `i` lives in the generation after `board`.
pub open spec fn life_next(board: Seq<bool>, dims: Dimensions, i: int) -> bool {
    life_rule(board[i], live_neighbors(board, dims, point_at(dims, i)))
}

/// The generation after `board`.
pub open spec fn life_step(board: Seq<bool>, dims: Dimensions) -> Seq<bool> {
    Seq::new(board.len(), |i: int| life_next(board, dims, i))
}

/// The generation after `board` when only the cells marked in `change` are
/// worked out anew and the others are carried over.
pub open spec fn stepped(board: Seq<bool>, change: Seq<bool>, dims: Dimensions) -> Seq<bool> {
    Seq::new(
        board.len(),
        |i: int|
            if change[i] {
                life_next(board, dims, i)
            } else {
                board[i]
            },
    )
}

/// The board whose first cells are the bits of `data` and whose other cells
/// are those of `board`.
pub open spec fn seeded(board: Seq<bool>, data: Seq<u8>) -> Seq<bool> {
    Seq::new(
        board.len(),
        |i: int|
            if i < 8 * data.len() {
                bit_at(data, i)
            } else {
                board[i]
            },
    )
}

/// Every cell that is not marked in `change` keeps its state in the
/// generation after `board`.
pub open spec fn covers(board: Seq<bool>, change: Seq<bool>, dims: Dimensions) -> bool {
    forall|j: int| 0 <= j < board.len() && !change[j] ==> #[trigger] life_next(board, dims, j) == board[j]
}

/// Where the marks cover every cell that can change, carrying the unmarked
/// cells over gives the same board as working out every cell.
pub proof fn lemma_stepped_is_life_step(board: Seq<bool>, change: Seq<bool>, dims: Dimensions)
    requires
        covers(board, change, dims),
    ensures
        stepped(board, change, dims) == life_step(board, dims),
{
    assert(stepped(board, change, dims) =~= life_step(board, dims));
}

/// Marks on every cell cover every board.
pub proof fn lemma_all_marked_covers(board: Seq<bool>, change: Seq<bool>, dims: Dimensions)
    requires
        forall|j: int| 0 <= j < board.len() ==> change[j],
    ensures
        covers(board, change, dims),
{
}

/// The number of live neighbours of a cell depends only on the cells of its
/// neighbourhood.
proof fn lemma_live_among_local(a: Seq<bool>, b: Seq<bool>, dims: Dimensions, p: Point, n: int)
    requires
        0 <= n <= 9,
        forall|k: int|
            0 <= k < n ==> a[dims.index_of(#[trigger] neighbor(dims, p, k))] == b[dims.index_of(
                neighbor(dims, p, k),
            )],
    ensures
        live_among(a, dims, p, n) == live_among(b, dims, p, n),
    decreases n,
{
    if n > 0 {
        lemma_live_among_local(a, b, dims, p, n - 1);
    }
}

/// After a generation, the neighbourhoods of the cells that changed cover
/// every cell that can change in the generation that follows: a cell with no
/// change around it stays as it is.
pub proof fn lemma_spread_covers(board: Seq<bool>, dims: Dimensions)
    requires
        dims.nonempty(),
        board.len() == dims.area(),
    ensures
        covers(
            life_step(board, dims),
            crate::grids::change_grid::spread(board, life_step(board, dims), dims),
            dims,
        ),
{
    let next = life_step(board, dims);
    let marks = crate::grids::change_grid::spread(board, next, dims);
    assert forall|j: int| 0 <= j < next.len() && !marks[j] implies #[trigger] life_next(
        next,
        dims,
        j,
    ) == next[j] by {
        let p = point_at(dims, j);
        lemma_point_at_index(dims, j);
        assert forall|k: int| 0 <= k < 9 implies board[dims.index_of(
            #[trigger] neighbor(dims, p, k),
        )] == next[dims.index_of(neighbor(dims, p, k))] by {
            let q = neighbor(dims, p, k);
            lemma_neighbor_inside(dims, p, k);
            lemma_index_of_point(dims, q);
            let c = dims.index_of(q);
            if board[c] != next[c] {
                crate::grids::lemma_neighbor_symmetric(dims, p, k);
                assert(neighbor(dims, q, 8 - k) == p);
                assert(crate::grids::in_neighborhood(dims, point_at(dims, c), point_at(dims, j)));
                assert(crate::grids::change_grid::touched(board, next, dims, j));
            }
        }
        lemma_live_among_local(board, next, dims, p, 9);
        assert(neighbor(dims, p, 4) == p);
        assert(next[j] == board[j]);
    }
}

/// A board without a live cell has none in the next generation either.
pub proof fn lemma_dead_board_stays_dead(board: Seq<bool>, dims: Dimensions)
    requires
        dims.nonempty(),
        board.len() == dims.area(),
        forall|i: int| 0 <= i < board.len() ==> !board[i],
    ensures
        forall|i: int| 0 <= i < board.len() ==> !#[trigger] life_step(board, dims)[i],
{
    assert forall|i: int| 0 <= i < board.len() implies !#[trigger] life_step(board, dims)[i] by {
        let p = point_at(dims, i);
        lemma_point_at_index(dims, i);
        lemma_live_among_zero(board, dims, p, 9);
    }
}

proof fn lemma_live_among_zero(board: Seq<bool>, dims: Dimensions, p: Point, n: int)
    requires
        dims.contains(p),
        board.len() == dims.area(),
        0 <= n <= 9,
        forall|i: int| 0 <= i < board.len() ==> !board[i],
    ensures
        live_among(board, dims, p, n) == 0,
    decreases n,
{
    if n > 0 {
        lemma_live_among_zero(board, dims, p, n - 1);
        lemma_neighbor_inside(dims, p, n - 1);
        lemma_index_of_point(dims, neighbor(dims, p, n - 1));
    }
}

/// A live cell with fewer than two or more than three live neighbours is
/// dead in the next generation.
pub proof fn lemma_lonely_or_crowded_cell_dies(board: Seq<bool>, dims: Dimensions, i: int)
    requires
        0 <= i < board.len(),
        board[i],
        live_neighbors(board, dims, point_at(dims, i)) < 2 || live_neighbors(
            board,
            dims,
            point_at(dims, i),
        ) > 3,
    ensures
        !life_step(board, dims)[i],
{
}

/// A board that takes the data of a board of its size becomes that board,
/// where the cells fill whole bytes.
pub proof fn lemma_data_round_trip(board: Seq<bool>, cells: Seq<bool>)
    requires
        board.len() == cells.len(),
        cells.len() % 8 == 0,
    ensures
        seeded(board, pack(cells)) == cells,
{
    let data = pack(cells);
    assert(8 * data.len() == cells.len());
    assert forall|i: int| 0 <= i < cells.len() implies seeded(board, data)[i] == cells[i] by {
        crate::utils::bits::lemma_bit_of_pack(cells, i);
    }
    assert(seeded(board, data) =~= cells);
}

pub type Cellgrid = Grid<bool, CellGridImpl>;

/// Marks a grid as the automaton's board.
pub struct CellGridImpl;

impl Cellgrid {
    /// The cells packed into bytes, row by row, eight cells to a byte.
    pub fn get_data(&self) -> (data: Vec<u8>)
        requires
            self.wf(),
        ensures
            data@ == pack(self@),
    {
        let mut a = Aggregator::new();
        let points = self.get_points();
        let mut i: usize = 0;
        while i < points.len()
            invariant
                self.wf(),
                a.wf(),
                i <= points@.len(),
                points@.len() == self.dimensions.area(),
                forall|j: int|
                    0 <= j < points@.len() ==> #[trigger] points@[j] == point_at(
                        self.dimensions,
                        j,
                    ),
                a.bits() == self@.take(i as int),
            decreases points@.len() - i,
        {
            proof {
                lemma_point_at_index(self.dimensions, i as int);
            }
            a.append(*self.get_value(points[i]));
            assert(self@.take(i as int).push(self@[i as int]) =~= self@.take(i + 1));
            i += 1;
        }
        proof {
            a.lemma_bytes_are_packed();
            assert(self@.take(i as int) =~= self@);
        }
        a.into_bytes()
    }

    /// Writes the bits of `data` into the first cells, row by row.
    pub fn set_data(&mut self, data: &[u8])
        requires
            old(self).wf(),
            8 * data@.len() <= old(self)@.len(),
        ensures
            final(self).wf(),
            final(self).dimensions == old(self).dimensions,
            final(self)@ == seeded(old(self)@, data@),
    {
        let mut e = Enumerator::new(data);
        let cells: usize = self.storage.len();
        let mut i: usize = 0;
        loop
            invariant
                self.wf(),
                cells == self@.len(),
                self.dimensions == old(self).dimensions,
                self@.len() == old(self)@.len(),
                8 * data@.len() <= old(self)@.len(),
                e.wf(),
                e.bytes() == data@,
                e.position() == i,
                i <= 8 * data@.len(),
                forall|j: int|
                    0 <= j < self@.len() ==> #[trigger] self@[j] == (if j < i {
                        bit_at(data@, j)
                    } else {
                        old(self)@[j]
                    }),
            ensures
                i == 8 * data@.len(),
            decreases 8 * data@.len() - i,
        {
            match e.next() {
                Ok(b) => {
                    self.storage.set(i, b);
                    i += 1;
                },
                Err(_) => {
                    break ;
                },
            }
        }
        assert(self@ =~= seeded(old(self)@, data@));
    }

    /// The rule of Life for one cell.
    pub fn is_alive_in_next_generation(current_alive: bool, neighbors_count: usize) -> (alive:
        bool)
        ensures
            alive == life_rule(current_alive, neighbors_count as int),
    {
        if current_alive {
            neighbors_count == 2 || neighbors_count == 3
        } else {
            neighbors_count == 3
        }
    }

    /// Number of live cells among the eight neighbours of `point`.
    pub fn count_neighbors(&self, point: Point) -> (total: usize)
        requires
            self.wf(),
            self.dimensions.contains(point),
        ensures
            total == live_neighbors(self@, self.dimensions, point),
            total <= 8,
    {
        let cells = self.get_neighborhood(point);
        let mut total: usize = 0;
        let mut k: usize = 0;
        while k < 9
            invariant
                self.wf(),
                self.dimensions.contains(point),
                k <= 9,
                cells@.len() == 9,
                forall|j: int|
                    0 <= j < 9 ==> #[trigger] cells@[j] == (
                        j == 4,
                        neighbor(self.dimensions, point, j),
                    ),
                total == live_among(self@, self.dimensions, point, k as int),
                total <= k,
                k > 4 ==> total < k,
            decreases 9 - k,
        {
            let (is_center, p) = cells[k];
            proof {
                lemma_neighbor_inside(self.dimensions, point, k as int);
            }
            if !is_center && *self.get_value(p) {
                total += 1;
            }
            k += 1;
        }
        total
    }

    /// Works out the next generation into `next_cell_grid`. Only the cells
    /// marked in `current_change_grid` are worked out anew, the others are
    /// carried over; for every cell that changes, its whole neighbourhood is
    /// marked in `next_change_grid`.
    pub fn next_generation(
        &self,
        current_change_grid: &ChangeGrid,
        next_cell_grid: &mut Self,
        next_change_grid: &mut ChangeGrid,
    )
        requires
            self.wf(),
            current_change_grid.wf(),
            old(next_cell_grid).wf(),
            old(next_change_grid).wf(),
            current_change_grid.dimensions == self.dimensions,
            old(next_cell_grid).dimensions == self.dimensions,
            old(next_change_grid).dimensions == self.dimensions,
        ensures
            final(next_cell_grid).wf(),
            final(next_change_grid).wf(),
            final(next_cell_grid).dimensions == self.dimensions,
            final(next_change_grid).dimensions == self.dimensions,
            final(next_cell_grid)@ == stepped(self@, current_change_grid@, self.dimensions),
            final(next_change_grid)@ == crate::grids::change_grid::spread(
                self@,
                final(next_cell_grid)@,
                self.dimensions,
            ),
    {
        next_cell_grid.set_all(false);
        next_change_grid.set_all(false);
        let points = self.get_points();
        let ghost dims = self.dimensions;
        let ghost goal = stepped(self@, current_change_grid@, dims);
        let mut i: usize = 0;
        while i < points.len()
            invariant
                self.wf(),
                current_change_grid.wf(),
                next_cell_grid.wf(),
                next_change_grid.wf(),
                dims == self.dimensions,
                current_change_grid.dimensions == dims,
                next_cell_grid.dimensions == dims,
                next_change_grid.dimensions == dims,
                goal == stepped(self@, current_change_grid@, dims),
                i <= points@.len(),
                points@.len() == dims.area(),
                forall|j: int| 0 <= j < points@.len() ==> #[trigger] points@[j] == point_at(dims, j),
                forall|j: int|
                    0 <= j < dims.area() ==> #[trigger] next_cell_grid@[j] == (j < i && goal[j]),
                forall|j: int|
                    0 <= j < dims.area() ==> #[trigger] next_change_grid@[j]
                        == crate::grids::change_grid::reached(self@, goal, dims, j, i as int),
            decreases points@.len() - i,
        {
            let p = points[i];
            proof {
                lemma_point_at_index(dims, i as int);
            }
            let current_alive = *self.get_value(p);
            if *current_change_grid.get_value(p) {
                let neighbors_count = self.count_neighbors(p);
                let next_alive = Self::is_alive_in_next_generation(current_alive, neighbors_count);
                if next_alive {
                    next_cell_grid.set_value(true, p);
                }
                if current_alive != next_alive {
                    next_change_grid.set_changed(p);
                }
            } else {
                next_cell_grid.set_value(current_alive, p);
            }
            i += 1;
        }
        proof {
            assert(next_cell_grid@ =~= goal);
            assert forall|j: int| 0 <= j < dims.area() implies next_change_grid@[j]
                == #[trigger] crate::grids::change_grid::spread(self@, goal, dims)[j] by {
                crate::grids::change_grid::lemma_reached_all(self@, goal, dims, j, dims.area());
            }
            assert(next_change_grid@ =~= crate::grids::change_grid::spread(self@, goal, dims));
        }
    }
}

impl ColorValues<bool> for CellGridImpl {
    /// Live cells are white, dead cells black.
    open spec fn color_of(value: bool) -> Pixel {
        if value {
            Pixel::new(255, 255, 255)
        } else {
            Pixel::new(0, 0, 0)
        }
    }

    fn color_for_value(value: &bool) -> (pixel: Pixel) {
        if *value {
            Pixel::new(255, 255, 255)
        } else {
            Pixel::new(0, 0, 0)
        }
    }
}

} // verus!
