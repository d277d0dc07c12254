//! The cell-type matrix the host draws.
//!
//! A `Grid` is derived from a finished `Level`: every cell is
//! classified as the start, the end, a waypoint, an ordinary path
//! cell, or empty — in that precedence order.  The grid is immutable
//! after generation; tower placement never alters cell types.

use vstd::prelude::*;
use crate::level::{Level, Point, point_in_vec};

verus! {

/// What occupies one grid cell.
#[derive(Clone, Copy, Debug, PartialEq, Eq, Structural)]
pub enum CellType {
    Empty,
    Path,
    Waypoint,
    Start,
    End,
}

/// The classification of cell `(x, y)`, with start and end taking
/// precedence over waypoints, and waypoints over plain path cells.
pub open spec fn spec_cell(level: Level, x: int, y: int) -> CellType {
    let p = Point { x: x as usize, y: y as usize };
    if p == level.start {
        CellType::Start
    } else if p == level.end {
        CellType::End
    } else if level.waypoints@.contains(p) {
        CellType::Waypoint
    } else if level.path@.contains(p) {
        CellType::Path
    } else {
        CellType::Empty
    }
}

/// A row-major cell matrix (`cells[y][x]`) beside the ordered path.
pub struct Grid {
    pub cells: Vec<Vec<CellType>>,
    pub path: Vec<Point>,
}

impl Grid {
    /// Builds the matrix of a level, one classified cell per grid
    /// position, and copies the path for iteration in path order.
    pub fn new(level: &Level) -> (g: Grid)
        requires
            level.wf(),
        ensures
            g.path@ == level.path@,
            g.cells@.len() == level.height,
            forall|y: int| 0 <= y < level.height ==> (#[trigger] g.cells@[y])@.len() == level.width,
            forall|y: int, x: int|
                0 <= y < level.height && 0 <= x < level.width ==> (#[trigger] g.cells@[y]@[x])
                    == spec_cell(*level, x, y),
    {
        let mut cells: Vec<Vec<CellType>> = Vec::new();
        let mut y: usize = 0;
        while y < level.height
            invariant
                y <= level.height,
                cells@.len() == y,
                forall|r: int| 0 <= r < y ==> (#[trigger] cells@[r])@.len() == level.width,
                forall|r: int, x: int|
                    0 <= r < y && 0 <= x < level.width ==> (#[trigger] cells@[r]@[x]) == spec_cell(
                        *level,
                        x,
                        r,
                    ),
            decreases level.height - y,
        {
            let mut row: Vec<CellType> = Vec::new();
            let mut x: usize = 0;
            while x < level.width
                invariant
                    x <= level.width,
                    row@.len() == x,
                    forall|c: int|
                        0 <= c < x ==> (#[trigger] row@[c]) == spec_cell(*level, c, y as int),
                decreases level.width - x,
            {
                let p = Point { x, y };
                let cell = if p == level.start {
                    CellType::Start
                } else if p == level.end {
                    CellType::End
                } else if point_in_vec(&level.waypoints, p) {
                    CellType::Waypoint
                } else if point_in_vec(&level.path, p) {
                    CellType::Path
                } else {
                    CellType::Empty
                };
                row.push(cell);
                x = x + 1;
            }
            cells.push(row);
            y = y + 1;
        }
        let mut path: Vec<Point> = Vec::new();
        let mut i: usize = 0;
        while i < level.path.len()
            invariant
                i <= level.path@.len(),
                path@ == level.path@.take(i as int),
            decreases level.path@.len() - i,
        {
            path.push(level.path[i]);
            proof {
                assert(level.path@.take(i + 1) =~= level.path@.take(i as int).push(
                    level.path@[i as int],
                ));
            }
            i = i + 1;
        }
        proof {
            assert(level.path@.take(level.path@.len() as int) =~= level.path@);
        }
        Grid { cells, path }
    }
}

} // verus!
