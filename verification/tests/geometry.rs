use raycaster::fixed::{isqrt, normalize_angle, TWO_PI_FP};
use raycaster::maze::{cell_to_color, check_maze, BOUNDARY_CELL};
use raycaster::player::{check_win_condition, is_collision, try_move, Player};
use raycaster::raycast::{cast_ray, corrected_distance, ray_angle};
use raycaster::{RenderConfig, FP};

fn unit_cfg() -> RenderConfig {
    RenderConfig {
        block_size: 1,
        step: FP,
        max_steps: 1000,
        proj_dist: 70,
        sprite_scale: 70,
        min_sprite_dist: 50 * FP,
        behind_threshold: -(FP as i64),
        transparent: 0xED1C24,
    }
}

fn game_cfg() -> RenderConfig {
    let mut cfg = unit_cfg();
    cfg.block_size = 70;
    cfg
}

fn ring_maze() -> Vec<Vec<char>> {
    vec![
        vec!['#', '#', '#'],
        vec!['#', ' ', '#'],
        vec!['#', '#', '#'],
    ]
}

#[test]
fn cast_straight_hits_wall_three_cells_away() {
    // One-cell march step into a wall three cells ahead: the hit lands on
    // the wall cell at exactly three cells of marched distance.
    let maze = vec![vec![' ', ' ', ' ', '#']];
    let cfg = unit_cfg();
    let half = FP / 2;
    let hit = cast_ray(&maze, half, half, FP as i64, 0, &cfg);
    assert_eq!(hit.steps, 3);
    assert_eq!(hit.distance, 3 * FP);
    assert_eq!(hit.kind, '#');
}

#[test]
fn cast_straight_negative_direction_matches() {
    // The mirrored cast: same three-cell distance with the opposite sign
    // of approach.
    let maze = vec![vec!['#', ' ', ' ', ' ']];
    let cfg = unit_cfg();
    let ox = 3 * FP + FP / 2;
    let hit = cast_ray(&maze, ox, FP / 2, -(FP as i64), 0, &cfg);
    assert_eq!(hit.steps, 3);
    assert_eq!(hit.distance, 3 * FP);
    assert_eq!(hit.kind, '#');
}

#[test]
fn cast_from_ring_center_hits_at_half_cell() {
    // The enclosed 3x3 ring, player at the center of the middle cell:
    // a cast along each axis stops after about half a cell.
    let maze = ring_maze();
    let cfg = game_cfg();
    let c = 105 * FP; // the center of the middle cell at 70 units per cell
    let east = cast_ray(&maze, c, c, FP as i64, 0, &cfg);
    assert_eq!(east.distance, 35 * FP);
    assert_eq!(east.kind, '#');
    let south = cast_ray(&maze, c, c, 0, FP as i64, &cfg);
    assert_eq!(south.distance, 35 * FP);
    assert_eq!(south.kind, '#');
    let west = cast_ray(&maze, c, c, -(FP as i64), 0, &cfg);
    assert!(west.distance == 35 * FP || west.distance == 36 * FP);
    assert_eq!(west.kind, '#');
    let north = cast_ray(&maze, c, c, 0, -(FP as i64), &cfg);
    assert!(north.distance == 35 * FP || north.distance == 36 * FP);
    assert_eq!(north.kind, '#');
}

#[test]
fn cast_out_of_grid_reports_boundary() {
    // A ray that escapes an open grid hits the implicit boundary wall
    // instead of indexing out of range.
    let maze = vec![vec![' ', ' '], vec![' ', ' ']];
    let cfg = unit_cfg();
    let hit = cast_ray(&maze, FP / 2, FP / 2, FP as i64, 0, &cfg);
    assert_eq!(hit.kind, BOUNDARY_CELL);
    assert_eq!(hit.steps, 2);
}

#[test]
fn cast_tangent_is_a_fraction_of_the_cell() {
    let maze = vec![vec![' ', ' ', ' ', '#']];
    let cfg = unit_cfg();
    let hit = cast_ray(&maze, FP / 2, FP / 4, FP as i64, 0, &cfg);
    // A mostly-horizontal ray keeps its y offset as the face coordinate:
    // a quarter of the cell.
    assert_eq!(hit.tangent, FP / 4);
    assert!(hit.tangent < FP);
}

#[test]
fn corrected_distance_at_view_axis_is_exact() {
    // Cosine one (the ray along the view axis) keeps the raw distance.
    assert_eq!(corrected_distance(12345, FP), 12345);
    assert_eq!(corrected_distance(0, FP), 0);
}

#[test]
fn corrected_distance_scales_by_cosine() {
    assert_eq!(corrected_distance(100 * FP, FP / 2), 50 * FP);
    assert_eq!(corrected_distance(70 * FP, 0), 0);
}

#[test]
fn collision_inside_ring_walls() {
    // Every position on the '#' ring collides; the center is free.
    let maze = ring_maze();
    assert!(is_collision(35 * FP, 105 * FP, &maze, 70));
    assert!(is_collision(105 * FP, 35 * FP, &maze, 70));
    assert!(is_collision(175 * FP, 175 * FP, &maze, 70));
    assert!(!is_collision(105 * FP, 105 * FP, &maze, 70));
}

#[test]
fn collision_outside_grid_is_blocked() {
    let maze = ring_maze();
    assert!(is_collision(500 * FP, 105 * FP, &maze, 70));
    assert!(is_collision(105 * FP, 500 * FP, &maze, 70));
}

#[test]
fn goal_and_floor_do_not_collide() {
    let maze = vec![vec!['#', ' ', 'g', '#']];
    assert!(!is_collision(105 * FP, 35 * FP, &maze, 70)); // ' '
    assert!(!is_collision(175 * FP, 35 * FP, &maze, 70)); // 'g'
    assert!(is_collision(35 * FP, 35 * FP, &maze, 70)); // '#'
}

#[test]
fn try_move_commits_free_and_rejects_blocked() {
    let maze = ring_maze();
    let c = 105 * FP;
    // A small step inside the middle cell goes through whole.
    let (nx, ny) = try_move(c, c, 10 * FP as i64, 0, &maze, 70);
    assert_eq!((nx, ny), (c + 10 * FP, c));
    // A step into the ring is rejected whole, both axes.
    let (bx, by) = try_move(c, c, 40 * FP as i64, 20 * FP as i64, &maze, 70);
    assert_eq!((bx, by), (c, c));
}

#[test]
fn win_condition_on_goal_cell_only() {
    let maze = vec![vec!['#', ' ', 'g']];
    let on_goal = Player { x: 175 * FP, y: 35 * FP, a: 0, fov: FP as i64 };
    let off_goal = Player { x: 105 * FP, y: 35 * FP, a: 0, fov: FP as i64 };
    assert!(check_win_condition(&on_goal, &maze, 70));
    assert!(!check_win_condition(&off_goal, &maze, 70));
}

#[test]
fn malformed_grids_are_rejected_at_load() {
    assert!(check_maze(&ring_maze()));
    let empty: Vec<Vec<char>> = Vec::new();
    assert!(!check_maze(&empty));
    assert!(!check_maze(&vec![Vec::new()]));
    assert!(!check_maze(&vec![vec!['#', '#'], vec!['#']]));
}

#[test]
fn cell_colors_match_the_palette() {
    assert_eq!(cell_to_color('+'), 0xFF00FF);
    assert_eq!(cell_to_color('-'), 0xDD11DD);
    assert_eq!(cell_to_color('g'), 0xFF00);
    assert_eq!(cell_to_color('|'), 0xCC11CC);
    assert_eq!(cell_to_color(' '), 0x000000);
    assert_eq!(cell_to_color('?'), 0x000000);
}

#[test]
fn normalize_angle_wraps_into_one_turn() {
    assert_eq!(normalize_angle(0), 0);
    assert_eq!(normalize_angle(100), 100);
    assert_eq!(normalize_angle(-1), TWO_PI_FP - 1);
    assert_eq!(normalize_angle(TWO_PI_FP + 5), 5);
    assert_eq!(normalize_angle(3 * TWO_PI_FP), 0);
}

#[test]
fn ray_angles_sweep_the_field_of_view() {
    // The sweep runs from half the field of view left of the heading to
    // half right, in equal steps.
    assert_eq!(ray_angle(0, 100, 0, 4), -50);
    assert_eq!(ray_angle(0, 100, 2, 4), 0);
    assert_eq!(ray_angle(0, 100, 4, 4), 50);
    assert_eq!(ray_angle(1000, 100, 1, 4), 975);
}

#[test]
fn integer_square_roots_round_down() {
    assert_eq!(isqrt(0), 0);
    assert_eq!(isqrt(1), 1);
    assert_eq!(isqrt(15), 3);
    assert_eq!(isqrt(16), 4);
    assert_eq!(isqrt(24), 4);
    assert_eq!(isqrt(1 << 60), 1 << 30);
}
