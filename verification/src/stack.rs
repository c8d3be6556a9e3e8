use vstd::prelude::*;
use crate::grid::{flat_index, lemma_below_truncated, lemma_index_in_range, Grid};
use crate::numpy::{decimal, push_decimal};
use crate::text::{push_str, string_from_chars};

verus! {

/// Refusal to stack a grid whose extents differ from the stack's.
#[derive(Debug, Clone)]
pub enum StackError {
    InvalidDimensions { old_x: u32, new_x: u32, old_y: u32, new_y: u32 },
}

/// The text of a refusal: the stack's extents, then the refused grid's.
pub open spec fn stack_error_text(old_x: u32, old_y: u32, new_x: u32, new_y: u32) -> Seq<char> {
    "invalid dimensions requested dimensions: ("@ + decimal(old_x as nat) + ", "@ + decimal(
        old_y as nat,
    ) + ") correct dimensions: ("@ + decimal(new_x as nat) + ", "@ + decimal(new_y as nat)
        + ")"@
}

impl StackError {
    /// The refusal as a line of text.
    pub fn message(&self) -> (r: String)
        ensures
            match self {
                StackError::InvalidDimensions { old_x, new_x, old_y, new_y } => r@
                    == stack_error_text(*old_x, *old_y, *new_x, *new_y),
            },
    {
        match self {
            StackError::InvalidDimensions { old_x, new_x, old_y, new_y } => {
                let mut out: Vec<char> = Vec::new();
                push_str(&mut out, "invalid dimensions requested dimensions: (");
                push_decimal(&mut out, *old_x);
                push_str(&mut out, ", ");
                push_decimal(&mut out, *old_y);
                push_str(&mut out, ") correct dimensions: (");
                push_decimal(&mut out, *new_x);
                push_str(&mut out, ", ");
                push_decimal(&mut out, *new_y);
                push_str(&mut out, ")");
                string_from_chars(&out)
            },
        }
    }
}

/// Every layer has the extents of the first.
pub open spec fn same_extents<T: Copy>(layers: Seq<Grid<T>>) -> bool {
    forall|i: int|
        0 <= i < layers.len() ==> (#[trigger] layers[i]).width() == layers[0].width()
            && layers[i].height() == layers[0].height()
}

/// A stack of layers that all share the extents of the first.
pub struct GridStack<T: Copy> {
    layers: Vec<Grid<T>>,
}

impl<T: Copy> GridStack<T> {
    pub closed spec fn layers(&self) -> Seq<Grid<T>> {
        self.layers@
    }

    /// An empty stack.
    pub fn new() -> (r: Self)
        ensures
            r.layers().len() == 0,
    {
        GridStack { layers: Vec::new() }
    }

    /// A stack holding `layers` as they are, as loading a stack keeps them.
    pub fn from_layers(layers: Vec<Grid<T>>) -> (r: Self)
        ensures
            r.layers() == layers@,
    {
        GridStack { layers }
    }

    /// The layers held.
    pub fn len(&self) -> (r: usize)
        ensures
            r == self.layers().len(),
    {
        self.layers.len()
    }

    /// Stacks `grid` on a stack that holds layers, where its extents match
    /// the first layer's. A stack without layers stays empty.
    pub fn push_grid(&mut self, grid: Grid<T>) -> (r: Result<(), StackError>)
        ensures
            same_extents(old(self).layers()) ==> same_extents(final(self).layers()),
            old(self).layers().len() == 0 ==> r is Ok && final(self).layers() == old(self).layers(),
            old(self).layers().len() > 0 ==> {
                let first = old(self).layers()[0];
                if grid.width() != first.width() || grid.height() != first.height() {
                    &&& r == Err::<(), StackError>(
                        StackError::InvalidDimensions {
                            old_x: (first.width() as usize) as u32,
                            new_x: (grid.width() as usize) as u32,
                            old_y: (first.height() as usize) as u32,
                            new_y: (grid.height() as usize) as u32,
                        },
                    )
                    &&& final(self).layers() == old(self).layers()
                } else {
                    &&& r is Ok
                    &&& final(self).layers() == old(self).layers().push(grid)
                }
            },
    {
        let layers_len = self.layers.len();
        if layers_len > 0 {
            let size_x = self.layers[0].x();
            let size_y = self.layers[0].y();
            if grid.x() != size_x || grid.y() != size_y {
                return Err(
                    StackError::InvalidDimensions {
                        old_x: #[verifier::truncate] (size_x as u32),
                        old_y: #[verifier::truncate] (size_y as u32),
                        new_x: #[verifier::truncate] (grid.x() as u32),
                        new_y: #[verifier::truncate] (grid.y() as u32),
                    },
                );
            }
            self.layers.push(grid)
        }
        Ok(())
    }
}

/// Whether `(x, y)` addresses a cell of `grid`, the extents converted to
/// `i32` as Rust's `as` does.
pub fn in_bounds<T: Copy>(grid: &Grid<T>, x: i32, y: i32) -> (r: bool)
    ensures
        r == (x < (grid.width() as usize) as i32 && y < (grid.height() as usize) as i32 && x >= 0
            && y >= 0),
{
    x < #[verifier::truncate] (grid.x() as i32) && y < #[verifier::truncate] (grid.y() as i32)
        && x >= 0 && y >= 0
}

/// The cell at `(x, y)` where `in_bounds` holds; `None` elsewhere.
pub fn get_item<T: Copy>(grid: &Grid<T>, x: i32, y: i32) -> (r: Option<T>)
    requires
        grid.wf(),
    ensures
        r is Some <==> (x < (grid.width() as usize) as i32 && y < (grid.height() as usize) as i32
            && x >= 0 && y >= 0),
        r matches Some(v) ==> v == grid.cell(x as int, y as int),
{
    if in_bounds(grid, x, y) {
        proof {
            lemma_below_truncated(grid.width() as usize, x);
            lemma_below_truncated(grid.height() as usize, y);
            lemma_index_in_range(grid.width() as int, grid.height() as int, x as int, y as int);
        }
        Some(grid.get(x as usize, y as usize))
    } else {
        None
    }
}

/// Writes `item` at `(x, y)` where `in_bounds` holds, and tells whether it
/// did; elsewhere the grid stays as it was.
pub fn set_item<T: Copy>(grid: &mut Grid<T>, x: i32, y: i32, item: T) -> (r: bool)
    requires
        old(grid).wf(),
    ensures
        r <==> (x < (old(grid).width() as usize) as i32 && y < (old(grid).height() as usize) as i32
            && x >= 0 && y >= 0),
        final(grid).wf(),
        final(grid).width() == old(grid).width(),
        final(grid).height() == old(grid).height(),
        r ==> final(grid).cells() == old(grid).cells().update(
            flat_index(old(grid).height() as int, x as int, y as int),
            item,
        ),
        !r ==> *final(grid) == *old(grid),
{
    if in_bounds(grid, x, y) {
        proof {
            lemma_below_truncated(grid.width() as usize, x);
            lemma_below_truncated(grid.height() as usize, y);
            lemma_index_in_range(grid.width() as int, grid.height() as int, x as int, y as int);
        }
        *grid.get_mut(x as usize, y as usize) = item;
        true
    } else {
        false
    }
}

} // verus!
