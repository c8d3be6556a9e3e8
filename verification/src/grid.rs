use vstd::prelude::*;
use crate::vector2::Vector2;

verus! {

/// Index of the cell `(x, y)` in the row-major storage of a grid whose
/// second extent is `height`: cells are laid out `x` by `x`, each run
/// holding the `height` cells of one `x`.
pub open spec fn flat_index(height: int, x: int, y: int) -> int {
    height * x + y
}

/// A two dimensional array of `x() * y()` cells.
#[derive(Clone)]
pub struct Grid<T: Copy> {
    points: Vec<T>,
    x: usize,
    y: usize,
}

/// Error returned when a checked lookup falls outside the grid.
#[derive(Debug, Clone)]
pub enum BoundsCheckError {
    InvalidIndex { invalid_x: i32, invalid_y: i32, size_x: i32, size_y: i32 },
}

pub(crate) proof fn lemma_index_in_range(w: int, h: int, x: int, y: int)
    by (nonlinear_arith)
    requires
        0 <= x < w,
        0 <= y < h,
    ensures
        0 <= flat_index(h, x, y) < w * h,
{
}

impl<T: Copy> Grid<T> {
    /// Extent along x.
    pub closed spec fn width(&self) -> nat {
        self.x as nat
    }

    /// Extent along y.
    pub closed spec fn height(&self) -> nat {
        self.y as nat
    }

    /// The cells in storage order; `(x, y)` sits at `flat_index(height, x, y)`.
    pub closed spec fn cells(&self) -> Seq<T> {
        self.points@
    }

    /// Every grid built by this library holds exactly `width * height` cells.
    pub open spec fn wf(&self) -> bool {
        self.cells().len() == self.width() * self.height()
    }

    /// The cell stored for the coordinates `(x, y)`.
    pub open spec fn cell(&self, x: int, y: int) -> T {
        self.cells()[flat_index(self.height() as int, x, y)]
    }

    /// Builds a grid of the given extents from cells in storage order.
    pub fn from_vec(dimensions: Vector2<usize>, points: Vec<T>) -> (r: Self)
        requires
            dimensions.x * dimensions.y == points@.len(),
        ensures
            r.wf(),
            r.width() == dimensions.x,
            r.height() == dimensions.y,
            r.cells() == points@,
    {
        Grid { points, x: dimensions.x, y: dimensions.y }
    }

    /// X dimensions
    pub fn x(&self) -> (r: usize)
        ensures
            r == self.width(),
    {
        self.x
    }

    /// Y dimensions
    pub fn y(&self) -> (r: usize)
        ensures
            r == self.height(),
    {
        self.y
    }

    /// The cell at `(x, y)`; the flat index must fall inside the storage.
    pub fn get(&self, x: usize, y: usize) -> (r: T)
        requires
            flat_index(self.height() as int, x as int, y as int) < self.cells().len(),
        ensures
            r == self.cell(x as int, y as int),
    {
        let n = self.points.len();
        proof {
            vstd::arithmetic::mul::lemma_mul_nonnegative(self.y as int, x as int);
        }
        self.points[self.y * x + y]
    }

    /// gets value at index or gets other value
    ///
    /// The cell at `(x, y)` where both coordinates lie inside the grid;
    /// `other_value` for any other pair.
    pub fn get_or(&self, x: i32, y: i32, other_value: T) -> (r: T)
        requires
            self.wf(),
        ensures
            r == (if 0 <= x < self.width() && 0 <= y < self.height() {
                self.cell(x as int, y as int)
            } else {
                other_value
            }),
    {
        if x >= 0 && y >= 0 && (x as usize) < self.x && (y as usize) < self.y {
            let n = self.points.len();
            proof {
                lemma_index_in_range(self.x as int, self.y as int, x as int, y as int);
            }
            let idx = self.get_idx(x as usize, y as usize);
            self.points[idx]
        } else {
            other_value
        }
    }

    /// gets idx of coords
    fn get_idx(&self, x: usize, y: usize) -> (r: usize)
        requires
            flat_index(self.height() as int, x as int, y as int) <= usize::MAX,
        ensures
            r == flat_index(self.height() as int, x as int, y as int),
    {
        proof {
            vstd::arithmetic::mul::lemma_mul_nonnegative(self.y as int, x as int);
        }
        self.y * x + y
    }

    /// gets mut unchecked
    pub fn get_mut(&mut self, x: usize, y: usize) -> (r: &mut T)
        requires
            flat_index(old(self).height() as int, x as int, y as int) < old(self).cells().len(),
        ensures
            *r == old(self).cell(x as int, y as int),
            final(self).width() == old(self).width(),
            final(self).height() == old(self).height(),
            final(self).cells() == old(self).cells().update(
                flat_index(old(self).height() as int, x as int, y as int),
                *final(r),
            ),
    {
        let n = self.points.len();
        proof {
            vstd::arithmetic::mul::lemma_mul_nonnegative(self.y as int, x as int);
        }
        let idx = self.y * x + y;
        &mut self.points[idx]
    }

    /// gets points unchecked at point
    ///
    /// Each coordinate is converted to `usize` as Rust's `as` does.
    pub fn get_unchecked(&self, dim: Vector2<i64>) -> (r: T)
        requires
            flat_index(self.height() as int, (dim.x as usize) as int, (dim.y as usize) as int)
                < self.cells().len(),
        ensures
            r == self.cell((dim.x as usize) as int, (dim.y as usize) as int),
    {
        self.get(dim.x as usize, dim.y as usize)
    }

    /// gets unchecked mut
    pub fn get_mut_unchecked(&mut self, dim: Vector2<i64>) -> (r: &mut T)
        requires
            flat_index(old(self).height() as int, (dim.x as usize) as int, (dim.y as usize) as int)
                < old(self).cells().len(),
        ensures
            *r == old(self).cell((dim.x as usize) as int, (dim.y as usize) as int),
            final(self).width() == old(self).width(),
            final(self).height() == old(self).height(),
            final(self).cells() == old(self).cells().update(
                flat_index(old(self).height() as int, (dim.x as usize) as int, (dim.y as usize) as int),
                *final(r),
            ),
    {
        self.get_mut(dim.x as usize, dim.y as usize)
    }

    /// builds grid from function
    ///
    /// `f` is called once for each cell, `x` by `x` and, within one `x`,
    /// `y` by `y`.
    pub fn from_fn<F: Fn(usize, usize) -> T>(f: F, dimensions: Vector2<usize>) -> (r: Self)
        requires
            dimensions.x * dimensions.y <= usize::MAX,
            forall|x: usize, y: usize|
                x < dimensions.x && y < dimensions.y ==> call_requires(f, (x, y)),
        ensures
            r.wf(),
            r.width() == dimensions.x,
            r.height() == dimensions.y,
            forall|x: usize, y: usize|
                x < dimensions.x && y < dimensions.y ==> call_ensures(
                    f,
                    (x, y),
                    #[trigger] r.cell(x as int, y as int),
                ),
    {
        let dim_x = dimensions.x;
        let dim_y = dimensions.y;
        let mut points: Vec<T> = Vec::new();
        let mut x: usize = 0;
        while x < dim_x
            invariant
                x <= dim_x,
                dim_x * dim_y <= usize::MAX,
                points@.len() == x * dim_y,
                forall|a: usize, b: usize|
                    a < dim_x && b < dim_y ==> call_requires(f, (a, b)),
                forall|a: usize, b: usize|
                    a < x && b < dim_y ==> call_ensures(
                        f,
                        (a, b),
                        #[trigger] points@[flat_index(dim_y as int, a as int, b as int)],
                    ),
            decreases dim_x - x,
        {
            let mut y: usize = 0;
            while y < dim_y
                invariant
                    x < dim_x,
                    y <= dim_y,
                    dim_x * dim_y <= usize::MAX,
                    points@.len() == x * dim_y + y,
                    forall|a: usize, b: usize|
                        a < dim_x && b < dim_y ==> call_requires(f, (a, b)),
                    forall|a: usize, b: usize|
                        (a < x && b < dim_y) || (a == x && b < y) ==> call_ensures(
                            f,
                            (a, b),
                            #[trigger] points@[flat_index(dim_y as int, a as int, b as int)],
                        ),
                decreases dim_y - y,
            {
                let v = f(x, y);
                proof {
                    assert(x * dim_y + y < dim_x * dim_y) by (nonlinear_arith)
                        requires x < dim_x, y < dim_y;
                    assert(flat_index(dim_y as int, x as int, y as int) == x * dim_y + y)
                        by (nonlinear_arith);
                }
                let ghost before = points@;
                points.push(v);
                proof {
                    assert forall|a: usize, b: usize|
                        (a < x && b < dim_y) || (a == x && b < y + 1) implies call_ensures(
                            f,
                            (a, b),
                            #[trigger] points@[flat_index(dim_y as int, a as int, b as int)],
                        ) by {
                        if a == x && b == y {
                        } else {
                            lemma_row_before(dim_y as int, x as int, y as int, a as int, b as int);
                            assert(points@[flat_index(dim_y as int, a as int, b as int)]
                                == before[flat_index(dim_y as int, a as int, b as int)]);
                        }
                    }
                }
                y = y + 1;
            }
            proof {
                assert((x + 1) * dim_y == x * dim_y + dim_y) by (nonlinear_arith);
            }
            x = x + 1;
        }
        proof {
            assert forall|a: usize, b: usize|
                a < dim_x && b < dim_y implies call_ensures(
                    f,
                    (a, b),
                    #[trigger] points@[flat_index(dim_y as int, a as int, b as int)],
                ) by {
            }
        }
        Grid { points, x: dim_x, y: dim_y }
    }

    /// The cell at `(x, y)`, or the reason it is out of range.
    ///
    /// The extents are compared after conversion to `i32` as Rust's `as` does.
    pub fn get_checked(&self, x: i32, y: i32) -> (r: Result<T, BoundsCheckError>)
        requires
            self.wf(),
        ensures
            r == (if x < 0 || y < 0 || x >= (self.width() as usize) as i32 || y >= (
            self.height() as usize) as i32 {
                Err(
                    BoundsCheckError::InvalidIndex {
                        invalid_x: x,
                        invalid_y: y,
                        size_x: (self.width() as usize) as i32,
                        size_y: (self.height() as usize) as i32,
                    },
                )
            } else {
                Ok(self.cell(x as int, y as int))
            }),
    {
        if x < 0 || y < 0 || x >= self.x() as i32 || y >= self.y as i32 {
            return Err(
                BoundsCheckError::InvalidIndex {
                    invalid_x: x,
                    invalid_y: y,
                    size_x: self.x() as i32,
                    size_y: self.y() as i32,
                },
            );
        } else {
            proof {
                lemma_below_truncated(self.x, x);
                lemma_below_truncated(self.y, y);
                lemma_index_in_range(self.x as int, self.y as int, x as int, y as int);
            }
            Ok(self.get(x as usize, y as usize))
        }
    }
}

/// A non-negative `i32` below the `i32` conversion of an extent is below the extent.
pub(crate) proof fn lemma_below_truncated(extent: usize, v: i32)
    requires
        0 <= v,
        v < extent as i32,
    ensures
        v < extent,
{
    if extent <= i32::MAX {
    } else {
        assert(v <= i32::MAX);
    }
}

/// Storage indices of cells visited before `(x, y)` stay below its index.
proof fn lemma_row_before(h: int, x: int, y: int, a: int, b: int)
    by (nonlinear_arith)
    requires
        0 <= y < h,
        0 <= b < h,
        0 <= a,
        0 <= x,
        (a < x) || (a == x && b < y),
    ensures
        0 <= flat_index(h, a, b) < flat_index(h, x, y),
{
}

/// Writing one cell of a grid and reading back: the cell reads as the value
/// written, and every other cell reads as before.
pub proof fn lemma_write_then_read<T: Copy>(before: Grid<T>, after: Grid<T>, x: int, y: int, v: T)
    requires
        before.wf(),
        0 <= x < before.width(),
        0 <= y < before.height(),
        after.width() == before.width(),
        after.height() == before.height(),
        after.cells() == before.cells().update(flat_index(before.height() as int, x, y), v),
    ensures
        after.wf(),
        after.cell(x, y) == v,
        forall|a: int, b: int|
            0 <= a < before.width() && 0 <= b < before.height() && (a != x || b != y)
                ==> #[trigger] after.cell(a, b) == before.cell(a, b),
{
    let h = before.height() as int;
    lemma_index_in_range(before.width() as int, h, x, y);
    assert forall|a: int, b: int|
        0 <= a < before.width() && 0 <= b < before.height() && (a != x || b != y)
            implies #[trigger] after.cell(a, b) == before.cell(a, b) by {
        lemma_index_in_range(before.width() as int, h, a, b);
        if a < x || (a == x && b < y) {
            lemma_row_before(h, x, y, a, b);
        } else {
            lemma_row_before(h, a, b, x, y);
        }
    }
}

} // verus!
