//! Dense two-dimensional grids whose edges wrap around.

use std::marker::PhantomData;
use vstd::prelude::*;
use crate::colors::Pixel;
use crate::{Dimensions, Point};

pub mod cell_grid;
pub mod change_grid;
pub mod color_grid;
pub mod frac_grid;

verus! {

/// The point with row-major index `i`.
pub open spec fn point_at(dims: Dimensions, i: int) -> Point {
    Point { x: (i % (dims.width as int)) as usize, y: (i / (dims.width as int)) as usize }
}

/// Coordinate `c` moved by `step` along an axis of length `m` that wraps
/// around at both ends; `step` is -1, 0 or 1.
pub open spec fn wrapped(c: int, step: int, m: int) -> int {
    let moved = c + step;
    if moved < 0 {
        moved + m
    } else if moved >= m {
        moved - m
    } else {
        moved
    }
}

/// Entry `k` of the neighbourhood of `p`: the nine cells around and
/// including `p`, row by row from the upper left, so that entry 4 is `p`.
pub open spec fn neighbor(dims: Dimensions, p: Point, k: int) -> Point {
    Point {
        x: wrapped(p.x as int, k % 3 - 1, dims.width as int) as usize,
        y: wrapped(p.y as int, k / 3 - 1, dims.height as int) as usize,
    }
}

/// `q` is one of the nine cells of the neighbourhood of `p`.
pub open spec fn in_neighborhood(dims: Dimensions, p: Point, q: Point) -> bool {
    exists|k: int| 0 <= k < 9 && #[trigger] neighbor(dims, p, k) == q
}

/// A grid with a cell along each side has a cell.
pub proof fn lemma_area_positive(dims: Dimensions)
    requires
        dims.nonempty(),
    ensures
        dims.area() >= 1,
{
    assert(dims.width * dims.height >= 1) by (nonlinear_arith)
        requires
            dims.width >= 1,
            dims.height >= 1,
    ;
}

/// A point inside the grid has its index inside the storage, and is the
/// point at that index.
pub proof fn lemma_index_of_point(dims: Dimensions, p: Point)
    requires
        dims.contains(p),
    ensures
        0 <= dims.index_of(p) < dims.area(),
        point_at(dims, dims.index_of(p)) == p,
{
    let w = dims.width as int;
    let h = dims.height as int;
    let x = p.x as int;
    let y = p.y as int;
    assert(y * w + x < h * w) by (nonlinear_arith)
        requires
            0 <= x < w,
            0 <= y < h,
    ;
    assert(0 <= y * w) by (nonlinear_arith)
        requires
            0 <= y,
            0 <= w,
    ;
    vstd::arithmetic::div_mod::lemma_fundamental_div_mod_converse(y * w + x, w, y, x);
}

/// An index inside the storage belongs to a point inside the grid.
pub proof fn lemma_point_at_index(dims: Dimensions, i: int)
    requires
        0 <= i < dims.area(),
    ensures
        dims.contains(point_at(dims, i)),
        dims.index_of(point_at(dims, i)) == i,
{
    let w = dims.width as int;
    let h = dims.height as int;
    assert(w > 0) by (nonlinear_arith)
        requires
            0 <= i < h * w,
            0 <= h,
            0 <= w,
    ;
    vstd::arithmetic::div_mod::lemma_fundamental_div_mod(i, w);
    vstd::arithmetic::div_mod::lemma_mod_bound(i, w);
    assert(0 <= i / w < h) by (nonlinear_arith)
        requires
            0 <= i < h * w,
            w > 0,
            i == w * (i / w) + i % w,
            0 <= i % w < w,
    ;
    assert(w * (i / w) == (i / w) * w) by (nonlinear_arith);
}

/// Every cell of a neighbourhood lies inside the grid.
pub proof fn lemma_neighbor_inside(dims: Dimensions, p: Point, k: int)
    requires
        dims.contains(p),
        0 <= k < 9,
    ensures
        dims.contains(neighbor(dims, p, k)),
{
}

/// Neighbourhoods are symmetric: entry `k` of the neighbourhood of `p` has
/// `p` as entry `8 - k` of its own.
pub proof fn lemma_neighbor_symmetric(dims: Dimensions, p: Point, k: int)
    requires
        dims.contains(p),
        0 <= k < 9,
    ensures
        neighbor(dims, neighbor(dims, p, k), 8 - k) == p,
{
}

/// With wrap-around, moving a coordinate is addition modulo the axis length.
pub proof fn lemma_wrapped_is_modular(c: int, step: int, m: int)
    requires
        0 <= c < m,
        -1 <= step <= 1,
    ensures
        wrapped(c, step, m) == (c + step + m) % m,
{
    let r = wrapped(c, step, m);
    if c + step < 0 {
        vstd::arithmetic::div_mod::lemma_fundamental_div_mod_converse(c + step + m, m, 0, r);
    } else if c + step >= m {
        vstd::arithmetic::div_mod::lemma_fundamental_div_mod_converse(c + step + m, m, 2, r);
    } else {
        vstd::arithmetic::div_mod::lemma_fundamental_div_mod_converse(c + step + m, m, 1, r);
    }
}

/// On a grid at least three cells wide and high, the eight neighbours of a
/// cell are eight different cells, none of them the cell itself.
pub proof fn lemma_neighbors_distinct(dims: Dimensions, p: Point, j: int, k: int)
    requires
        dims.width >= 3,
        dims.height >= 3,
        dims.contains(p),
        0 <= j < 9,
        0 <= k < 9,
        j != k,
    ensures
        neighbor(dims, p, j) != neighbor(dims, p, k),
        neighbor(dims, p, 4) == p,
        j != 4 ==> neighbor(dims, p, j) != p,
{
}

/// How the values of one kind of grid are shown as pixels.
pub trait ColorValues<T> {
    /// The pixel that shows `value`.
    spec fn color_of(value: T) -> Pixel;

    fn color_for_value(value: &T) -> (pixel: Pixel)
        ensures
            pixel == Self::color_of(*value),
    ;
}

/// A grid of `T`, stored row by row. `C` names the kind of grid and with it
/// the way its values are shown.
#[verifier::reject_recursive_types(C)]
pub struct Grid<T, C> {
    pub dimensions: Dimensions,
    pub max_x: usize,
    pub max_y: usize,
    pub storage: Vec<T>,
    pub _phantom_data: PhantomData<C>,
}

impl<T, C> View for Grid<T, C> {
    type V = Seq<T>;

    /// The cells in row-major order.
    open spec fn view(&self) -> Seq<T> {
        self.storage@
    }
}

impl<T: Copy + Default, C> Grid<T, C> {
    /// The grid is not empty and its storage has one entry for each cell.
    pub open spec fn wf(&self) -> bool {
        &&& self.dimensions.nonempty()
        &&& self.max_x == self.dimensions.width - 1
        &&& self.max_y == self.dimensions.height - 1
        &&& self.storage@.len() == self.dimensions.area()
    }

    /// The value at `point`.
    pub open spec fn at(&self, point: Point) -> T {
        self@[self.dimensions.index_of(point)]
    }

    /// A grid of the given size, every cell holding the default value.
    pub fn new(dimensions: Dimensions) -> (grid: Grid<T, C>)
        requires
            dimensions.nonempty(),
            dimensions.area() <= usize::MAX,
        ensures
            grid.wf(),
            grid.dimensions == dimensions,
            forall|i: int|
                0 <= i < dimensions.area() ==> call_ensures(T::default, (), #[trigger] grid@[i]),
    {
        let max_x: usize = dimensions.width - 1;
        let max_y: usize = dimensions.height - 1;
        let cells: usize = dimensions.width * dimensions.height;
        let mut storage: Vec<T> = Vec::new();
        let mut i: usize = 0;
        while i < cells
            invariant
                i <= cells,
                storage@.len() == i,
                forall|j: int| 0 <= j < i ==> call_ensures(T::default, (), #[trigger] storage@[j]),
            decreases cells - i,
        {
            storage.push(T::default());
            i += 1;
        }
        Self { dimensions, max_x, max_y, storage, _phantom_data: PhantomData }
    }

    fn offset(&self, point: Point) -> (index: usize)
        requires
            self.wf(),
            self.dimensions.contains(point),
        ensures
            index == self.dimensions.index_of(point),
            index < self.storage@.len(),
    {
        proof {
            assert(self.storage@.len() == self.storage.len());
            lemma_index_of_point(self.dimensions, point);
            assert(0 <= point.y * self.dimensions.width) by (nonlinear_arith);
        }
        point.y * self.dimensions.width + point.x
    }

    fn circular_index(coordinate: usize, step: i32, modulus: usize) -> (index: usize)
        requires
            coordinate < modulus,
            -1 <= step <= 1,
        ensures
            index == wrapped(coordinate as int, step as int, modulus as int),
            index < modulus,
    {
        if step < 0 {
            if coordinate == 0 {
                modulus - 1
            } else {
                coordinate - 1
            }
        } else if step > 0 {
            if coordinate == modulus - 1 {
                0
            } else {
                coordinate + 1
            }
        } else {
            coordinate
        }
    }

    /// Sets every cell to `value`.
    pub fn set_all(&mut self, value: T)
        requires
            old(self).wf(),
        ensures
            final(self).wf(),
            final(self).dimensions == old(self).dimensions,
            final(self)@ == Seq::new(old(self)@.len(), |i: int| value),
    {
        let cells: usize = self.storage.len();
        let mut i: usize = 0;
        while i < cells
            invariant
                i <= cells,
                self.wf(),
                self.dimensions == old(self).dimensions,
                self.storage@.len() == cells,
                cells == old(self)@.len(),
                forall|j: int| 0 <= j < i ==> #[trigger] self.storage@[j] == value,
            decreases cells - i,
        {
            self.storage.set(i, value);
            i += 1;
        }
        assert(self@ =~= Seq::new(old(self)@.len(), |i: int| value));
    }

    /// Sets the cell at `point` to `value`.
    pub fn set_value(&mut self, value: T, point: Point)
        requires
            old(self).wf(),
            old(self).dimensions.contains(point),
        ensures
            final(self).wf(),
            final(self).dimensions == old(self).dimensions,
            final(self)@ == old(self)@.update(old(self).dimensions.index_of(point), value),
    {
        let index: usize = self.offset(point);
        self.storage.set(index, value);
    }

    /// The value of the cell at `point`.
    pub fn get_value(&self, point: Point) -> (value: &T)
        requires
            self.wf(),
            self.dimensions.contains(point),
        ensures
            *value == self.at(point),
    {
        let index: usize = self.offset(point);
        &self.storage[index]
    }

    /// All points of the grid, row by row.
    pub fn get_points(&self) -> (points: Vec<Point>)
        requires
            self.wf(),
        ensures
            points@.len() == self.dimensions.area(),
            forall|i: int|
                0 <= i < points@.len() ==> #[trigger] points@[i] == point_at(self.dimensions, i),
    {
        let mut points: Vec<Point> = Vec::new();
        let width: usize = self.dimensions.width;
        let height: usize = self.dimensions.height;
        let mut y: usize = 0;
        while y < height
            invariant
                self.wf(),
                width == self.dimensions.width,
                height == self.dimensions.height,
                y <= height,
                points@.len() == y * width,
                forall|i: int|
                    0 <= i < points@.len() ==> #[trigger] points@[i] == point_at(
                        self.dimensions,
                        i,
                    ),
            decreases height - y,
        {
            let mut x: usize = 0;
            while x < width
                invariant
                    self.wf(),
                    width == self.dimensions.width,
                    height == self.dimensions.height,
                    y < height,
                    x <= width,
                    points@.len() == y * width + x,
                    forall|i: int|
                        0 <= i < points@.len() ==> #[trigger] points@[i] == point_at(
                            self.dimensions,
                            i,
                        ),
                decreases width - x,
            {
                proof {
                    lemma_index_of_point(self.dimensions, Point { x, y });
                }
                points.push(Point { x, y });
                x += 1;
            }
            assert(y * width + width == (y + 1) * width) by (nonlinear_arith);
            y += 1;
        }
        assert(height * width == width * height) by (nonlinear_arith);
        points
    }

    /// The nine cells around and including `point`, row by row, each with a
    /// flag that tells whether it is `point` itself.
    pub fn get_neighborhood(&self, point: Point) -> (cells: Vec<(bool, Point)>)
        requires
            self.wf(),
            self.dimensions.contains(point),
        ensures
            cells@.len() == 9,
            forall|k: int|
                0 <= k < 9 ==> #[trigger] cells@[k] == (k == 4, neighbor(self.dimensions, point, k)),
    {
        let mut cells: Vec<(bool, Point)> = Vec::new();
        let mut oy: i32 = -1;
        while oy < 2
            invariant
                self.wf(),
                self.dimensions.contains(point),
                -1 <= oy <= 2,
                cells@.len() == 3 * (oy + 1),
                forall|k: int|
                    0 <= k < cells@.len() ==> #[trigger] cells@[k] == (
                        k == 4,
                        neighbor(self.dimensions, point, k),
                    ),
            decreases 2 - oy,
        {
            let mut ox: i32 = -1;
            while ox < 2
                invariant
                    self.wf(),
                    self.dimensions.contains(point),
                    -1 <= oy < 2,
                    -1 <= ox <= 2,
                    cells@.len() == 3 * (oy + 1) + (ox + 1),
                    forall|k: int|
                        0 <= k < cells@.len() ==> #[trigger] cells@[k] == (
                            k == 4,
                            neighbor(self.dimensions, point, k),
                        ),
                decreases 2 - ox,
            {
                let px: usize = Self::circular_index(point.x, ox, self.dimensions.width);
                let py: usize = Self::circular_index(point.y, oy, self.dimensions.height);
                cells.push((ox == 0 && oy == 0, Point { x: px, y: py }));
                ox += 1;
            }
            oy += 1;
        }
        cells
    }
}

impl<T: Copy + Default, C: ColorValues<T>> Grid<T, C> {
    /// The pixels that show the cells, row by row, as a flat sequence of
    /// red, green and blue values.
    pub fn colors(&self) -> (flat: Vec<u8>)
        requires
            self.wf(),
        ensures
            flat@.len() == 3 * self@.len(),
            forall|i: int, c: int|
                0 <= i < self@.len() && 0 <= c < 3 ==> #[trigger] flat@[3 * i + c] == C::color_of(
                    self@[i],
                ).channel(c),
    {
        let mut flat: Vec<u8> = Vec::new();
        let cells: usize = self.storage.len();
        let mut i: usize = 0;
        while i < cells
            invariant
                i <= cells,
                cells == self@.len(),
                flat@.len() == 3 * i,
                forall|j: int, c: int|
                    0 <= j < i && 0 <= c < 3 ==> #[trigger] flat@[3 * j + c] == C::color_of(
                        self@[j],
                    ).channel(c),
            decreases cells - i,
        {
            let pixel = C::color_for_value(&self.storage[i]);
            flat.push(pixel.r);
            flat.push(pixel.g);
            flat.push(pixel.b);
            i += 1;
        }
        flat
    }
}

} // verus!
