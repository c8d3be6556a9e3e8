use vstd::prelude::*;
use crate::vector2::Vector2;

verus! {

/// An axis aligned box of grid cells, corners included.
#[derive(Clone, Copy, PartialEq, Eq, Debug)]
pub struct AABBBarrier {
    pub top_right: Vector2<i32>,
    pub bottom_left: Vector2<i32>,
}

impl AABBBarrier {
    pub open spec fn covers(&self, x: i32, y: i32) -> bool {
        &&& self.top_right.x >= x
        &&& self.top_right.y >= y
        &&& self.bottom_left.x <= x
        &&& self.bottom_left.y <= y
    }

    /// Whether the cell `(x, y)` lies inside the box, borders included.
    pub fn contains_point(&self, x: i32, y: i32) -> (r: bool)
        ensures
            r == self.covers(x, y),
            r == (self.bottom_left.x <= x <= self.top_right.x && self.bottom_left.y <= y
                <= self.top_right.y),
    {
        self.top_right.x >= x && self.top_right.y >= y && self.bottom_left.x <= x
            && self.bottom_left.y <= y
    }
}

/// Whether any of the boxes contains the cell `(x, y)`.
pub fn vec_contains_point(boxes: &[AABBBarrier], x: i32, y: i32) -> (r: bool)
    ensures
        r == exists|i: int| 0 <= i < boxes@.len() && (#[trigger] boxes@[i]).covers(x, y),
        r == exists|i: int|
            0 <= i < boxes@.len() && (#[trigger] boxes@[i]).bottom_left.x <= x
                <= boxes@[i].top_right.x && boxes@[i].bottom_left.y <= y <= boxes@[i].top_right.y,
{
    let mut i: usize = 0;
    while i < boxes.len()
        invariant
            i <= boxes@.len(),
            forall|j: int| 0 <= j < i ==> !(#[trigger] boxes@[j]).covers(x, y),
        decreases boxes@.len() - i,
    {
        if boxes[i].contains_point(x, y) {
            return true;
        }
        i = i + 1;
    }
    false
}

/// A box holds exactly the cells between its corners, borders included:
/// a cell left of, right of, below or above the box is not in it.
pub proof fn lemma_covers_between_corners(b: AABBBarrier, x: i32, y: i32)
    ensures
        b.covers(x, y) <==> (b.bottom_left.x <= x <= b.top_right.x && b.bottom_left.y <= y
            <= b.top_right.y),
        y > b.top_right.y ==> !b.covers(x, y),
        y < b.bottom_left.y ==> !b.covers(x, y),
        x > b.top_right.x ==> !b.covers(x, y),
        x < b.bottom_left.x ==> !b.covers(x, y),
{
}

/// A cell is a wall exactly when some box holds it between its corners; a
/// cell above every box is no wall.
pub proof fn lemma_walls_between_corners(boxes: Seq<AABBBarrier>, x: i32, y: i32)
    ensures
        (exists|i: int| 0 <= i < boxes.len() && (#[trigger] boxes[i]).covers(x, y)) <==> (exists|
            i: int,
        |
            0 <= i < boxes.len() && (#[trigger] boxes[i]).bottom_left.x <= x <= boxes[i].top_right.x
                && boxes[i].bottom_left.y <= y <= boxes[i].top_right.y),
        (forall|i: int| 0 <= i < boxes.len() ==> y > (#[trigger] boxes[i]).top_right.y) ==> !(
        exists|i: int| 0 <= i < boxes.len() && (#[trigger] boxes[i]).covers(x, y)),
{
}

} // verus!
