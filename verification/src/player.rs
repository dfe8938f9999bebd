//! The player pose, the collision probe, and the movement decision.

use vstd::prelude::*;
use crate::fixed::TWO_PI_FP;
use crate::maze::{blocked_spec, blocks, cell_blocks, grid_view, maze_wf, on_goal_spec, GOAL_CELL};
use crate::{FP, MAX_COORD};

verus! {

/// The camera pose: a fixed-point world position, a heading angle and a
/// field-of-view angle, both in fixed-point radians.
pub struct Player {
    pub x: u64,
    pub y: u64,
    pub a: i64,
    pub fov: i64,
}

impl Player {
    /// Position inside the coordinate range the geometry accepts, heading
    /// normalized to one turn, field of view positive.
    pub open spec fn wf(&self) -> bool {
        &&& self.x <= MAX_COORD
        &&& self.y <= MAX_COORD
        &&& 0 <= self.a < TWO_PI_FP
        &&& 0 < self.fov <= TWO_PI_FP
    }
}

/// Whether the world position `(x, y)` overlaps a blocking cell: positions
/// outside the grid are blocked, in-bounds positions block iff their cell
/// is a wall kind (open floor and the goal never block).
pub fn is_collision(x: u64, y: u64, maze: &Vec<Vec<char>>, block_size: u64) -> (r: bool)
    requires
        maze_wf(grid_view(maze)),
        1 <= block_size <= 32768,
    ensures
        r == blocked_spec(grid_view(maze), x as int, y as int, block_size * FP),
{
    let cell_fp = block_size * FP;
    let col = x / cell_fp;
    let row = y / cell_fp;
    if row >= maze.len() as u64 {
        return true;
    }
    let row_cells: &Vec<char> = &maze[row as usize];
    proof {
        assert(grid_view(maze)[row as int] == maze@[row as int]@);
        assert(grid_view(maze)[0] == maze@[0]@);
        assert(grid_view(maze)[row as int].len() == grid_view(maze)[0].len());
    }
    if col >= row_cells.len() as u64 {
        return true;
    }
    cell_blocks(row_cells[col as usize])
}

/// The movement decision: the proposed displacement is either committed
/// whole, or rejected whole when the target position is blocked.
pub open spec fn try_move_spec(
    m: Seq<Seq<char>>,
    x: int,
    y: int,
    dx: int,
    dy: int,
    cell_fp: int,
) -> (int, int) {
    let nx = x + dx;
    let ny = y + dy;
    if nx < 0 || ny < 0 || blocked_spec(m, nx, ny, cell_fp) {
        (x, y)
    } else {
        (nx, ny)
    }
}

/// Applies a proposed displacement: the new position when it is free, the
/// old position unchanged when any part of the move would collide.
pub fn try_move(x: u64, y: u64, dx: i64, dy: i64, maze: &Vec<Vec<char>>, block_size: u64) -> (r: (
    u64,
    u64,
))
    requires
        maze_wf(grid_view(maze)),
        1 <= block_size <= 32768,
        x <= MAX_COORD,
        y <= MAX_COORD,
        -(MAX_COORD as int) <= dx <= MAX_COORD,
        -(MAX_COORD as int) <= dy <= MAX_COORD,
    ensures
        (r.0 as int, r.1 as int) == try_move_spec(
            grid_view(maze),
            x as int,
            y as int,
            dx as int,
            dy as int,
            block_size * FP,
        ),
        r.0 <= 2 * MAX_COORD,
        r.1 <= 2 * MAX_COORD,
{
    let nx: u64 = if dx >= 0 {
        x + (dx as u64)
    } else {
        let m = (-dx) as u64;
        if m > x {
            return (x, y);
        }
        x - m
    };
    let ny: u64 = if dy >= 0 {
        y + (dy as u64)
    } else {
        let m = (-dy) as u64;
        if m > y {
            return (x, y);
        }
        y - m
    };
    if is_collision(nx, ny, maze, block_size) {
        (x, y)
    } else {
        (nx, ny)
    }
}

/// Whether the player stands on the goal cell.
pub fn check_win_condition(player: &Player, maze: &Vec<Vec<char>>, block_size: u64) -> (r: bool)
    requires
        maze_wf(grid_view(maze)),
        1 <= block_size <= 32768,
    ensures
        r == on_goal_spec(
            grid_view(maze),
            player.x as int,
            player.y as int,
            block_size * FP,
        ),
{
    let cell_fp = block_size * FP;
    let col = player.x / cell_fp;
    let row = player.y / cell_fp;
    if row >= maze.len() as u64 {
        return false;
    }
    let row_cells: &Vec<char> = &maze[row as usize];
    proof {
        assert(grid_view(maze)[row as int] == maze@[row as int]@);
        assert(grid_view(maze)[0] == maze@[0]@);
        assert(grid_view(maze)[row as int].len() == grid_view(maze)[0].len());
    }
    if col >= row_cells.len() as u64 {
        return false;
    }
    row_cells[col as usize] == GOAL_CELL
}

/// The collision probe agrees with the cell codes: a position whose cell
/// is a wall kind is blocked, a position on open floor or the goal is
/// free, and a position outside the grid is blocked.
pub proof fn lemma_collision_matches_cells(m: Seq<Seq<char>>, x: int, y: int, cell_fp: int)
    requires
        maze_wf(m),
        cell_fp >= 1,
        x >= 0,
        y >= 0,
    ensures
        (0 <= y / cell_fp < m.len() && 0 <= x / cell_fp < m[0].len()) ==> blocked_spec(
            m,
            x,
            y,
            cell_fp,
        ) == blocks(m[y / cell_fp][x / cell_fp]),
        !(0 <= y / cell_fp < m.len() && 0 <= x / cell_fp < m[0].len()) ==> blocked_spec(
            m,
            x,
            y,
            cell_fp,
        ),
{
}

} // verus!
