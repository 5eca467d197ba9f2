//! The symmetry renderer: the field is laid out in mirrored or rotated
//! copies, each cell shown in the shade that the gradient gives its value.

use vstd::prelude::*;
use crate::colors::Pixel;
use crate::grids::frac_grid::FracGrid;
use crate::grids::{lemma_index_of_point, lemma_point_at_index, point_at, ColorValues, Grid};
use crate::utils::{multiplier, target_size};
use crate::{Dimensions, Pattern, Point};

verus! {

/// A way to move a point of the field to its place in one copy: swap the
/// axes first, then mirror along x, then along y.
#[derive(Copy, Clone, Debug, PartialEq, Eq, Structural)]
pub struct Transform {
    pub transpose: bool,
    pub reflect_x: bool,
    pub reflect_y: bool,
}

/// The transforms of a pattern, one for each copy of the field.
pub open spec fn transform_set(pattern: Pattern) -> Seq<Transform> {
    match pattern {
        Pattern::Snowflake => seq![
            Transform { transpose: false, reflect_x: false, reflect_y: false },
            Transform { transpose: false, reflect_x: true, reflect_y: false },
            Transform { transpose: false, reflect_x: false, reflect_y: true },
            Transform { transpose: false, reflect_x: true, reflect_y: true },
        ],
        Pattern::Pinwheel => seq![
            Transform { transpose: false, reflect_x: false, reflect_y: false },
            Transform { transpose: true, reflect_x: true, reflect_y: false },
            Transform { transpose: true, reflect_x: false, reflect_y: true },
            Transform { transpose: false, reflect_x: true, reflect_y: true },
        ],
        Pattern::Fiducial => seq![
            Transform { transpose: false, reflect_x: false, reflect_y: false },
        ],
    }
}

/// `p` with its axes swapped where the transform says so.
pub open spec fn transposed(p: Point, transform: Transform) -> Point {
    if transform.transpose {
        Point { x: p.y, y: p.x }
    } else {
        p
    }
}

/// Where the transform puts `p` on a grid of size `dims`.
pub open spec fn transformed(dims: Dimensions, p: Point, transform: Transform) -> Point {
    let q = transposed(p, transform);
    Point {
        x: if transform.reflect_x {
            (dims.width - 1 - q.x) as usize
        } else {
            q.x
        },
        y: if transform.reflect_y {
            (dims.height - 1 - q.y) as usize
        } else {
            q.y
        },
    }
}

/// The cell of a field of size `size` that is shown at `q` of the tiled
/// grid. The snowflake mirrors the field into the other three quadrants; the
/// pinwheel turns a square field around the centre, a quarter turn from
/// quadrant to quadrant; the fiducial pattern shows the field as it is.
pub open spec fn source_of(size: Dimensions, pattern: Pattern, q: Point) -> Point {
    let w = size.width as int;
    let h = size.height as int;
    match pattern {
        Pattern::Fiducial => q,
        Pattern::Snowflake => Point {
            x: if q.x < w {
                q.x
            } else {
                (2 * w - 1 - q.x) as usize
            },
            y: if q.y < h {
                q.y
            } else {
                (2 * h - 1 - q.y) as usize
            },
        },
        Pattern::Pinwheel => if q.x < w && q.y < h {
            q
        } else if q.x >= w && q.y < h {
            Point { x: q.y, y: (2 * w - 1 - q.x) as usize }
        } else if q.x < w && q.y >= h {
            Point { x: (2 * h - 1 - q.y) as usize, y: q.x }
        } else {
            Point { x: (2 * w - 1 - q.x) as usize, y: (2 * h - 1 - q.y) as usize }
        },
    }
}

/// Size of the tiled grid for a field of size `size`.
pub open spec fn tiled_size(size: Dimensions, pattern: Pattern) -> Dimensions {
    Dimensions {
        width: (size.width * multiplier(pattern)) as usize,
        height: (size.height * multiplier(pattern)) as usize,
    }
}

/// The pattern can tile a field of this size: the pinwheel turns the field,
/// so it takes a square one.
pub open spec fn tiles(size: Dimensions, pattern: Pattern) -> bool {
    &&& size.nonempty()
    &&& pattern == Pattern::Pinwheel ==> size.width == size.height
    &&& size.width * multiplier(pattern) <= usize::MAX
    &&& size.height * multiplier(pattern) <= usize::MAX
}

/// Every transform of the pattern puts a cell of the field where that cell
/// is shown.
pub proof fn lemma_transformed_shows_source(
    size: Dimensions,
    pattern: Pattern,
    p: Point,
    k: int,
)
    requires
        tiles(size, pattern),
        size.contains(p),
        0 <= k < transform_set(pattern).len(),
    ensures
        tiled_size(size, pattern).contains(
            transposed(p, transform_set(pattern)[k]),
        ),
        tiled_size(size, pattern).contains(
            transformed(tiled_size(size, pattern), p, transform_set(pattern)[k]),
        ),
        source_of(
            size,
            pattern,
            transformed(tiled_size(size, pattern), p, transform_set(pattern)[k]),
        ) == p,
{
}

/// Every cell of the tiled grid is where some transform of the pattern puts
/// the cell of the field that is shown there.
pub proof fn lemma_source_is_transformed(size: Dimensions, pattern: Pattern, q: Point)
    requires
        tiles(size, pattern),
        tiled_size(size, pattern).contains(q),
    ensures
        size.contains(source_of(size, pattern, q)),
        exists|k: int|
            0 <= k < transform_set(pattern).len() && #[trigger] transformed(
                tiled_size(size, pattern),
                source_of(size, pattern, q),
                transform_set(pattern)[k],
            ) == q,
{
    let out = tiled_size(size, pattern);
    let p = source_of(size, pattern, q);
    let w = size.width as int;
    let h = size.height as int;
    let k: int = match pattern {
        Pattern::Fiducial => 0,
        Pattern::Snowflake => (if q.x < w {
            0int
        } else {
            1int
        }) + (if q.y < h {
            0int
        } else {
            2int
        }),
        Pattern::Pinwheel => if q.x < w && q.y < h {
            0
        } else if q.x >= w && q.y < h {
            1
        } else if q.x < w && q.y >= h {
            2
        } else {
            3
        },
    };
    assert(transformed(out, p, transform_set(pattern)[k]) == q);
}

pub type ColorGrid = Grid<Pixel, ColorGridImpl>;

/// Marks a grid as one of pixels.
pub struct ColorGridImpl;

/// The transforms of a pattern.
pub fn pattern_transforms(pattern: Pattern) -> (transforms: Vec<Transform>)
    ensures
        transforms@ == transform_set(pattern),
{
    let mut transforms: Vec<Transform> = Vec::new();
    transforms.push(Transform { transpose: false, reflect_x: false, reflect_y: false });
    match pattern {
        Pattern::Snowflake => {
            transforms.push(Transform { transpose: false, reflect_x: true, reflect_y: false });
            transforms.push(Transform { transpose: false, reflect_x: false, reflect_y: true });
            transforms.push(Transform { transpose: false, reflect_x: true, reflect_y: true });
        },
        Pattern::Pinwheel => {
            transforms.push(Transform { transpose: true, reflect_x: true, reflect_y: false });
            transforms.push(Transform { transpose: true, reflect_x: false, reflect_y: true });
            transforms.push(Transform { transpose: false, reflect_x: true, reflect_y: true });
        },
        Pattern::Fiducial => {},
    }
    assert(transforms@ =~= transform_set(pattern));
    transforms
}

impl ColorGrid {
    /// The field tiled by the pattern: every cell of the result shows the
    /// shade that `gradient` holds for the value of the field's cell shown
    /// there.
    pub fn create(frac_grid: &FracGrid, gradient: &Vec<Pixel>, pattern: Pattern) -> (grid: Self)
        requires
            frac_grid.wf(),
            tiles(frac_grid.dimensions, pattern),
            tiled_size(frac_grid.dimensions, pattern).area() <= usize::MAX,
            forall|i: int| 0 <= i < frac_grid@.len() ==> #[trigger] frac_grid@[i] < gradient@.len(),
        ensures
            grid.wf(),
            grid.dimensions == tiled_size(frac_grid.dimensions, pattern),
            forall|j: int|
                0 <= j < grid@.len() ==> #[trigger] grid@[j] == gradient@[frac_grid.at(
                    source_of(frac_grid.dimensions, pattern, point_at(grid.dimensions, j)),
                ) as int],
    {
        let mut color_grid = ColorGrid::new(target_size(frac_grid.dimensions, pattern));
        let transforms = pattern_transforms(pattern);
        let points = frac_grid.get_points();
        let ghost size = frac_grid.dimensions;
        let ghost out = tiled_size(size, pattern);
        let mut i: usize = 0;
        while i < points.len()
            invariant
                frac_grid.wf(),
                size == frac_grid.dimensions,
                out == tiled_size(size, pattern),
                tiles(size, pattern),
                color_grid.wf(),
                color_grid.dimensions == out,
                transforms@ == transform_set(pattern),
                i <= points@.len(),
                points@.len() == size.area(),
                forall|j: int| 0 <= j < points@.len() ==> #[trigger] points@[j] == point_at(size, j),
                forall|j: int| 0 <= j < frac_grid@.len() ==> #[trigger] frac_grid@[j] < gradient@.len(),
                forall|j: int|
                    0 <= j < out.area() && size.index_of(
                        source_of(size, pattern, point_at(out, j)),
                    ) < i ==> #[trigger] color_grid@[j] == gradient@[frac_grid.at(
                        source_of(size, pattern, point_at(out, j)),
                    ) as int],
            decreases points@.len() - i,
        {
            let point = points[i];
            proof {
                lemma_point_at_index(size, i as int);
            }
            let value: usize = *frac_grid.get_value(point);
            let color = gradient[value];
            let ghost before = color_grid@;
            proof {
                assert forall|k: int| 0 <= k < transforms@.len() implies out.contains(
                    transposed(point, #[trigger] transforms@[k]),
                ) by {
                    lemma_transformed_shows_source(size, pattern, point, k);
                }
            }
            color_grid.draw(point, color, transforms.as_slice());
            proof {
                assert forall|j: int|
                    0 <= j < out.area() && size.index_of(
                        source_of(size, pattern, point_at(out, j)),
                    ) < i + 1 implies #[trigger] color_grid@[j] == gradient@[frac_grid.at(
                    source_of(size, pattern, point_at(out, j)),
                ) as int] by {
                    let q = point_at(out, j);
                    let p = source_of(size, pattern, q);
                    lemma_point_at_index(out, j);
                    lemma_source_is_transformed(size, pattern, q);
                    lemma_index_of_point(size, p);
                    if size.index_of(p) == i {
                        assert(p == point);
                        assert(painted_at(out, point, transforms@, j));
                    } else {
                        if painted_at(out, point, transforms@, j) {
                            let k = choose|k: int|
                                0 <= k < transforms@.len() && out.index_of(
                                    #[trigger] transformed(out, point, transforms@[k]),
                                ) == j;
                            lemma_transformed_shows_source(size, pattern, point, k);
                            lemma_index_of_point(out, transformed(out, point, transforms@[k]));
                            assert(false);
                        }
                        assert(color_grid@[j] == before[j]);
                    }
                }
            }
            i += 1;
        }
        proof {
            assert forall|j: int| 0 <= j < color_grid@.len() implies #[trigger] color_grid@[j]
                == gradient@[frac_grid.at(source_of(size, pattern, point_at(out, j))) as int] by {
                let q = point_at(out, j);
                lemma_point_at_index(out, j);
                lemma_source_is_transformed(size, pattern, q);
                lemma_index_of_point(size, source_of(size, pattern, q));
            }
        }
        color_grid
    }

    /// Where `transform` puts `point` on this grid.
    pub fn transform_point(&self, point: Point, transform: Transform) -> (result: Point)
        requires
            self.wf(),
            self.dimensions.contains(transposed(point, transform)),
        ensures
            result == transformed(self.dimensions, point, transform),
            self.dimensions.contains(result),
    {
        let mut result = point;
        if transform.transpose {
            result = Point { x: point.y, y: point.x };
        }
        if transform.reflect_x {
            result.x = self.max_x - result.x;
        }
        if transform.reflect_y {
            result.y = self.max_y - result.y;
        }
        result
    }

    /// Writes `color` to every place where one of the transforms puts
    /// `point`.
    pub fn draw(&mut self, point: Point, color: Pixel, transforms: &[Transform])
        requires
            old(self).wf(),
            forall|k: int|
                0 <= k < transforms@.len() ==> old(self).dimensions.contains(
                    transposed(point, #[trigger] transforms@[k]),
                ),
        ensures
            final(self).wf(),
            final(self).dimensions == old(self).dimensions,
            final(self)@.len() == old(self)@.len(),
            forall|j: int|
                0 <= j < old(self)@.len() ==> #[trigger] final(self)@[j] == (if painted_at(
                    old(self).dimensions,
                    point,
                    transforms@,
                    j,
                ) {
                    color
                } else {
                    old(self)@[j]
                }),
    {
        let ghost dims = self.dimensions;
        let mut n: usize = 0;
        while n < transforms.len()
            invariant
                self.wf(),
                self.dimensions == dims,
                dims == old(self).dimensions,
                self@.len() == old(self)@.len(),
                n <= transforms@.len(),
                forall|k: int|
                    0 <= k < transforms@.len() ==> dims.contains(
                        transposed(point, #[trigger] transforms@[k]),
                    ),
                forall|j: int|
                    0 <= j < self@.len() ==> #[trigger] self@[j] == (if painted_at(
                        dims,
                        point,
                        transforms@.take(n as int),
                        j,
                    ) {
                        color
                    } else {
                        old(self)@[j]
                    }),
            decreases transforms@.len() - n,
        {
            let t = transforms[n];
            let target = self.transform_point(point, t);
            let ghost before = self@;
            self.set_value(color, target);
            proof {
                lemma_index_of_point(dims, target);
                let shorter = transforms@.take(n as int);
                let longer = transforms@.take(n + 1);
                assert(longer[n as int] == t);
                assert forall|j: int| 0 <= j < self@.len() implies #[trigger] self@[j] == (
                if painted_at(dims, point, longer, j) {
                    color
                } else {
                    old(self)@[j]
                }) by {
                    if j == dims.index_of(target) {
                        assert(dims.index_of(transformed(dims, point, longer[n as int])) == j);
                    } else {
                        assert(self@[j] == before[j]);
                        if painted_at(dims, point, shorter, j) {
                            let k = choose|k: int|
                                0 <= k < shorter.len() && dims.index_of(
                                    #[trigger] transformed(dims, point, shorter[k]),
                                ) == j;
                            assert(longer[k] == shorter[k]);
                            assert(dims.index_of(transformed(dims, point, longer[k])) == j);
                        }
                        if painted_at(dims, point, longer, j) {
                            let k = choose|k: int|
                                0 <= k < longer.len() && dims.index_of(
                                    #[trigger] transformed(dims, point, longer[k]),
                                ) == j;
                            assert(k < n);
                            assert(longer[k] == shorter[k]);
                            assert(dims.index_of(transformed(dims, point, shorter[k])) == j);
                        }
                    }
                }
            }
            n += 1;
        }
        assert(transforms@.take(n as int) =~= transforms@);
    }
}

/// One of the transforms puts `point` at the cell with index `j`.
pub open spec fn painted_at(
    dims: Dimensions,
    point: Point,
    transforms: Seq<Transform>,
    j: int,
) -> bool {
    exists|k: int|
        0 <= k < transforms.len() && dims.index_of(
            #[trigger] transformed(dims, point, transforms[k]),
        ) == j
}

impl ColorValues<Pixel> for ColorGridImpl {
    /// A pixel shows itself.
    open spec fn color_of(value: Pixel) -> Pixel {
        value
    }

    fn color_for_value(value: &Pixel) -> (pixel: Pixel) {
        *value
    }
}

} // verus!
