//! The coordinate space: cells, directions, and the wrap edge policy.

use vstd::prelude::*;

verus! {

/// One tile of the grid. A cell is valid for a `width x height` grid when
/// `x < width` and `y < height`.
#[derive(Clone, Copy, PartialEq, Eq, Structural, Debug)]
pub struct Cell {
    pub x: u16,
    pub y: u16,
}

/// A movement direction. Only the opposite pairs matter: Up/Down and
/// Left/Right.
#[derive(Clone, Copy, PartialEq, Eq, Structural, Debug)]
pub enum Direction {
    Up,
    Right,
    Down,
    Left,
}

/// The direction that undoes `d`.
pub open spec fn opposite(d: Direction) -> Direction {
    match d {
        Direction::Up => Direction::Down,
        Direction::Down => Direction::Up,
        Direction::Left => Direction::Right,
        Direction::Right => Direction::Left,
    }
}

/// Whether `d` is the exact opposite of `e`.
pub fn is_opposite(d: Direction, e: Direction) -> (r: bool)
    ensures
        r == (d == opposite(e)),
{
    match (d, e) {
        (Direction::Up, Direction::Down) => true,
        (Direction::Down, Direction::Up) => true,
        (Direction::Left, Direction::Right) => true,
        (Direction::Right, Direction::Left) => true,
        _ => false,
    }
}

/// Whether `c` lies on the `width x height` grid.
pub open spec fn in_bounds(c: Cell, width: u16, height: u16) -> bool {
    c.x < width && c.y < height
}

/// Whether `c` lies strictly inside the outer ring of tiles: food is only
/// placed there, so a snake head that has just eaten always has room to grow.
pub open spec fn in_interior(c: Cell, width: u16, height: u16) -> bool {
    1 <= c.x && c.x + 1 < width && 1 <= c.y && c.y + 1 < height
}

/// The cell one step from `c` in direction `d` under the wrap edge policy:
/// leaving the grid on one edge re-enters it on the opposite edge.
pub open spec fn step_spec(c: Cell, d: Direction, width: u16, height: u16) -> Cell {
    match d {
        Direction::Right => if c.x + 1 >= width {
            Cell { x: 0, y: c.y }
        } else {
            Cell { x: (c.x + 1) as u16, y: c.y }
        },
        Direction::Down => if c.y + 1 >= height {
            Cell { x: c.x, y: 0 }
        } else {
            Cell { x: c.x, y: (c.y + 1) as u16 }
        },
        Direction::Left => if c.x == 0 {
            Cell { x: (width - 1) as u16, y: c.y }
        } else {
            Cell { x: (c.x - 1) as u16, y: c.y }
        },
        Direction::Up => if c.y == 0 {
            Cell { x: c.x, y: (height - 1) as u16 }
        } else {
            Cell { x: c.x, y: (c.y - 1) as u16 }
        },
    }
}

/// Executable wrap step; always lands back on the grid.
pub fn step(c: Cell, d: Direction, width: u16, height: u16) -> (r: Cell)
    requires
        width > 0,
        height > 0,
        in_bounds(c, width, height),
    ensures
        r == step_spec(c, d, width, height),
        in_bounds(r, width, height),
{
    match d {
        Direction::Right => if c.x + 1 >= width {
            Cell { x: 0, y: c.y }
        } else {
            Cell { x: c.x + 1, y: c.y }
        },
        Direction::Down => if c.y + 1 >= height {
            Cell { x: c.x, y: 0 }
        } else {
            Cell { x: c.x, y: c.y + 1 }
        },
        Direction::Left => if c.x == 0 {
            Cell { x: width - 1, y: c.y }
        } else {
            Cell { x: c.x - 1, y: c.y }
        },
        Direction::Up => if c.y == 0 {
            Cell { x: c.x, y: height - 1 }
        } else {
            Cell { x: c.x, y: c.y - 1 }
        },
    }
}

/// A step taken from an interior cell never wraps: it is the plain
/// one-cell translation, and it stays on the grid.
pub proof fn lemma_interior_step_no_wrap(c: Cell, d: Direction, width: u16, height: u16)
    requires
        in_interior(c, width, height),
    ensures
        in_bounds(step_spec(c, d, width, height), width, height),
        step_spec(c, d, width, height).x + step_spec(c, d, width, height).y == c.x + c.y + 1
            || step_spec(c, d, width, height).x + step_spec(c, d, width, height).y + 1 == c.x + c.y,
{
}

} // verus!
