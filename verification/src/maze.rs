//! The maze grid: a rectangular field of cell codes.

use vstd::prelude::*;

verus! {

/// The cell code for open floor.
pub const EMPTY_CELL: char = ' ';

/// The cell code for the goal cell; it never blocks movement or sight,
/// only the win check cares about it.
pub const GOAL_CELL: char = 'g';

/// The cell code reported for a ray that leaves the grid: the grid is
/// surrounded by an implicit boundary wall.
pub const BOUNDARY_CELL: char = '#';

/// A cell blocks movement and sight iff it is neither open floor nor the
/// goal; every other code is a wall kind.
pub open spec fn blocks(c: char) -> bool {
    c != EMPTY_CELL && c != GOAL_CELL
}

/// Exec mirror of [`blocks`].
pub fn cell_blocks(c: char) -> (r: bool)
    ensures
        r == blocks(c),
{
    c != EMPTY_CELL && c != GOAL_CELL
}

/// The grid as a sequence of rows of cell codes.
pub open spec fn grid_view(m: &Vec<Vec<char>>) -> Seq<Seq<char>> {
    Seq::new(m@.len(), |i: int| m@[i]@)
}

/// A maze is well-formed when it has at least one row, at least one
/// column, and all rows are the same length.
pub open spec fn maze_wf(m: Seq<Seq<char>>) -> bool {
    &&& m.len() > 0
    &&& m[0].len() > 0
    &&& forall|i: int| 0 <= i < m.len() ==> (#[trigger] m[i]).len() == m[0].len()
}

/// Load-time validation: reports whether the grid is non-empty and
/// rectangular, so a malformed maze is rejected before any rendering.
pub fn check_maze(maze: &Vec<Vec<char>>) -> (r: bool)
    ensures
        r == maze_wf(grid_view(maze)),
{
    if maze.len() == 0 {
        return false;
    }
    let cols = maze[0].len();
    if cols == 0 {
        return false;
    }
    let mut i: usize = 1;
    while i < maze.len()
        invariant
            1 <= i <= maze@.len(),
            cols == maze@[0]@.len(),
            cols > 0,
            forall|j: int| 0 <= j < i ==> (#[trigger] grid_view(maze)[j]).len() == cols,
        decreases maze@.len() - i,
    {
        if maze[i].len() != cols {
            proof {
                assert(grid_view(maze)[i as int] == maze@[i as int]@);
                assert(grid_view(maze)[0] == maze@[0]@);
            }
            return false;
        }
        i = i + 1;
    }
    true
}

/// The world position `(x, y)` (fixed-point) is blocked: outside the grid,
/// or on a cell that blocks. `cell_fp` is the cell size in fixed-point
/// world units.
pub open spec fn blocked_spec(m: Seq<Seq<char>>, x: int, y: int, cell_fp: int) -> bool {
    let col = x / cell_fp;
    let row = y / cell_fp;
    !(0 <= row < m.len() && 0 <= col < m[0].len()) || blocks(m[row][col])
}

/// The world position `(x, y)` sits on the goal cell.
pub open spec fn on_goal_spec(m: Seq<Seq<char>>, x: int, y: int, cell_fp: int) -> bool {
    let col = x / cell_fp;
    let row = y / cell_fp;
    0 <= row < m.len() && 0 <= col < m[0].len() && m[row][col] == GOAL_CELL
}

/// The flat color a cell code is drawn with on the 2-D overview.
pub open spec fn cell_color_spec(cell: char) -> u32 {
    if cell == '+' {
        0xFF00FF
    } else if cell == '-' {
        0xDD11DD
    } else if cell == 'g' {
        0xFF00
    } else if cell == '|' {
        0xCC11CC
    } else {
        0x000000
    }
}

/// Maps a cell code to its flat overview color.
pub fn cell_to_color(cell: char) -> (r: u32)
    ensures
        r == cell_color_spec(cell),
{
    let default_color: u32 = 0x000000;
    match cell {
        '+' => 0xFF00FF,
        '-' => 0xDD11DD,
        'g' => 0xFF00,
        '|' => 0xCC11CC,
        _ => default_color,
    }
}

} // verus!
