use vstd::prelude::*;

verus! {

/// A signed grid vector: a cell of the world grid, or an offset between cells.
#[derive(Clone, Copy, Debug, PartialEq, Eq, Structural, Hash)]
pub struct IVec2 {
    pub x: i32,
    pub y: i32,
}

/// An unsigned grid vector: a cell of the source atlas, or a size in pixels.
#[derive(Clone, Copy, Debug, PartialEq, Eq, Structural, Hash)]
pub struct UVec2 {
    pub x: usize,
    pub y: usize,
}

/// The number of neighbour directions around a cell.
pub const DIRECTION_COUNT: usize = 8;

/// Horizontal component of neighbour direction `d` (world axes, y up).
pub open spec fn dir_x(d: int) -> int {
    if d < 3 {
        -1
    } else if d < 5 {
        0
    } else {
        1
    }
}

/// Vertical component of neighbour direction `d` (world axes, y up).
pub open spec fn dir_y(d: int) -> int {
    if d == 0 || d == 3 || d == 5 {
        -1
    } else if d == 1 || d == 6 {
        0
    } else {
        1
    }
}

/// The eight directions are exactly the non-zero vectors with components in {-1, 0, 1},
/// each one once.
pub open spec fn is_direction(dx: int, dy: int) -> bool {
    -1 <= dx <= 1 && -1 <= dy <= 1 && !(dx == 0 && dy == 0)
}

impl IVec2 {
    pub fn new(x: i32, y: i32) -> (r: IVec2)
        ensures
            r.x == x,
            r.y == y,
    {
        IVec2 { x, y }
    }
}

impl UVec2 {
    pub fn new(x: usize, y: usize) -> (r: UVec2)
        ensures
            r.x == x,
            r.y == y,
    {
        UVec2 { x, y }
    }
}

/// The offset of neighbour direction `d`.
pub fn direction(d: usize) -> (r: IVec2)
    requires
        d < DIRECTION_COUNT,
    ensures
        r.x == dir_x(d as int),
        r.y == dir_y(d as int),
{
    let x: i32 = if d < 3 {
        -1
    } else if d < 5 {
        0
    } else {
        1
    };
    let y: i32 = if d == 0 || d == 3 || d == 5 {
        -1
    } else if d == 1 || d == 6 {
        0
    } else {
        1
    };
    IVec2 { x, y }
}

/// The index of the direction with the given offset, if the offset is one of the eight.
pub fn direction_index(offset: IVec2) -> (r: Option<usize>)
    ensures
        match r {
            Some(d) => d < DIRECTION_COUNT && dir_x(d as int) == offset.x && dir_y(d as int)
                == offset.y,
            None => !is_direction(offset.x as int, offset.y as int),
        },
{
    let mut d: usize = 0;
    while d < DIRECTION_COUNT
        invariant
            d <= DIRECTION_COUNT,
            forall|e: int| 0 <= e < d ==> (dir_x(e), dir_y(e)) != (offset.x as int, offset.y as int),
        decreases DIRECTION_COUNT - d,
    {
        let v = direction(d);
        if v.x == offset.x && v.y == offset.y {
            return Some(d);
        }
        d = d + 1;
    }
    assert(!is_direction(offset.x as int, offset.y as int)) by {
        if is_direction(offset.x as int, offset.y as int) {
            let e: int = if offset.x == -1 {
                offset.y + 1
            } else if offset.x == 0 {
                if offset.y == -1 { 3 } else { 4 }
            } else {
                offset.y + 6
            };
            assert((dir_x(e), dir_y(e)) == (offset.x as int, offset.y as int));
        }
    }
    None
}

} // verus!
