use dolbaeb_simulator::tilemap::{MapId, NavGrid, BLOCKED};

fn grid_from(rows: &[&str]) -> NavGrid {
    let height = rows.len();
    let width = rows[0].len();
    let mut walls = Vec::new();
    for row in rows {
        for c in row.chars() {
            walls.push(c == '#');
        }
    }
    NavGrid::new(walls, width, height)
}

#[test]
fn cost_map_marks_walls_and_their_neighbours() {
    let g = grid_from(&["....", ".#..", "....", "...."]);
    assert_eq!(g.cost_at(1, 1), BLOCKED);
    assert_eq!(g.cost_at(0, 0), 2);
    assert_eq!(g.cost_at(2, 2), 2);
    assert_eq!(g.cost_at(3, 3), 1);
    assert_eq!(g.cost_at(3, 0), 1);
    assert_eq!(g.cost_at(0, 3), 1);
}

#[test]
fn fresh_grid_has_no_routes() {
    let g = grid_from(&["...", "..."]);
    assert_eq!(g.distance(0, 0), BLOCKED);
    assert_eq!(g.get_flow_direction(1, 1), (0, 0));
    assert_eq!(g.width(), 3);
    assert_eq!(g.height(), 2);
}

#[test]
fn corridor_distances_and_flow() {
    let mut g = grid_from(&["....."]);
    g.update_flow_field(0, 0);
    assert_eq!(g.distance(0, 0), 0);
    assert_eq!(g.distance(1, 0), 10);
    assert_eq!(g.distance(4, 0), 40);
    assert_eq!(g.get_flow_direction(4, 0), (-1, 0));
    assert_eq!(g.get_flow_direction(0, 0), (0, 0));
}

#[test]
fn open_room_flows_to_the_centre() {
    let mut g = grid_from(&["...", "...", "..."]);
    g.update_flow_field(1, 1);
    assert_eq!(g.distance(0, 0), 14);
    assert_eq!(g.distance(1, 0), 10);
    assert_eq!(g.get_flow_direction(0, 0), (1, 1));
    assert_eq!(g.get_flow_direction(2, 2), (-1, -1));
    assert_eq!(g.get_flow_direction(1, 0), (0, 1));
    assert_eq!(g.get_flow_direction(2, 1), (-1, 0));
}

#[test]
fn target_is_clamped_to_the_grid() {
    let mut g = grid_from(&["...", "..."]);
    g.update_flow_field(100, 100);
    assert_eq!(g.distance(2, 1), 0);
    assert_eq!(g.get_flow_direction(100, 0), (0, 1));
}

#[test]
fn routes_go_around_walls_and_avoid_corners() {
    // Target at the bottom left; a wall column blocks the direct way.
    let mut g = grid_from(&[".#.", ".#.", "..."]);
    g.update_flow_field(0, 0);
    assert_eq!(g.distance(1, 1), BLOCKED);
    // (2, 0) must go down around the wall.
    let f = g.get_flow_direction(2, 0);
    assert_eq!(f, (0, 1));
    // Diagonal past a wall corner is not allowed: (2, 2) -> (1, 2) straight.
    assert_eq!(g.get_flow_direction(2, 2), (-1, 0));
    assert!(g.distance(2, 0) > g.distance(2, 1));
}

#[test]
fn unreachable_tiles_keep_no_route() {
    let mut g = grid_from(&[".#.", "##.", "..."]);
    // (0, 0) is enclosed.
    g.update_flow_field(2, 2);
    assert_eq!(g.distance(0, 0), BLOCKED);
    assert_eq!(g.get_flow_direction(0, 0), (0, 0));
}

#[test]
fn following_the_flow_always_gets_closer() {
    let rows = [
        "..........",
        ".####.....",
        "....#..#..",
        ".#..#..#..",
        ".#.....#..",
        ".######...",
        "..........",
    ];
    let mut g = grid_from(&rows);
    g.update_flow_field(9, 6);
    for y in 0..rows.len() {
        for x in 0..rows[0].len() {
            let d = g.distance(x, y);
            if d == BLOCKED || (x == 9 && y == 6) {
                continue;
            }
            let (dx, dy) = g.get_flow_direction(x, y);
            assert!((dx, dy) != (0, 0));
            let nx = (x as i64 + dx as i64) as usize;
            let ny = (y as i64 + dy as i64) as usize;
            assert!(g.distance(nx, ny) < d);
        }
    }
}

#[test]
fn same_target_twice_changes_nothing() {
    let mut g = grid_from(&["....", "..#.", "...."]);
    g.update_flow_field(0, 0);
    let d1 = g.distance(3, 2);
    g.update_flow_field(0, 0);
    assert_eq!(g.distance(3, 2), d1);
    g.forget_target();
    g.update_flow_field(3, 2);
    assert_eq!(g.distance(3, 2), 0);
}

#[test]
fn empty_grid_does_nothing() {
    let mut g = NavGrid::new(Vec::new(), 0, 0);
    g.update_flow_field(3, 3);
    assert_eq!(g.get_flow_direction(0, 0), (0, 0));
    assert!(!g.check_collision_tiles(0, 5, 0, 5));
    assert!(g.tiles_clear(&vec![(0, 0), (-1, 7)]));
}

#[test]
fn collision_in_tile_ranges() {
    let g = grid_from(&["....", ".#..", "...."]);
    assert!(g.check_collision_tiles(0, 1, 0, 1));
    assert!(g.check_collision_tiles(1, 1, 1, 1));
    assert!(!g.check_collision_tiles(2, 3, 0, 2));
    assert!(!g.check_collision_tiles(-5, -1, 0, 2));
    assert!(!g.check_collision_tiles(0, 3, 3, 9));
    // Clipped to the grid from outside.
    assert!(g.check_collision_tiles(-3, 1, -3, 1));
    // An empty range holds nothing.
    assert!(!g.check_collision_tiles(2, 0, 0, 2));
}

#[test]
fn sight_lines_through_tiles() {
    let g = grid_from(&["....", ".#..", "...."]);
    assert!(g.tiles_clear(&vec![]));
    assert!(g.tiles_clear(&vec![(0, 0), (1, 0), (2, 0)]));
    assert!(!g.tiles_clear(&vec![(0, 0), (1, 1)]));
    assert!(!g.tiles_clear(&vec![(3, 2), (4, 2)]));
    assert!(!g.tiles_clear(&vec![(0, -1)]));
    assert!(g.is_wall(1, 1));
    assert!(!g.is_wall(0, 1));
}

#[test]
fn map_indices_follow_the_order_of_play() {
    assert_eq!(MapId::House.index(), 0);
    assert_eq!(MapId::Level1_1.index(), 1);
    assert_eq!(MapId::Level1_2.index(), 2);
    assert_eq!(MapId::Level2_1.index(), 3);
    assert_eq!(MapId::Level2_2.index(), 4);
}

#[test]
fn flow_is_zero_on_walls_target_and_unreached_tiles_and_following_it_stops() {
    let mut g = grid_from(&["..#..", "..#..", "....."]);
    g.update_flow_field(0, 0);
    assert_eq!(g.get_flow_direction(0, 0), (0, 0));
    assert_eq!(g.get_flow_direction(2, 0), (0, 0));
    // Follow the flow from the far corner: every step lowers the distance, and it ends at the target.
    let (mut x, mut y) = (4usize, 0usize);
    let mut steps = 0;
    loop {
        let (dx, dy) = g.get_flow_direction(x, y);
        if (dx, dy) == (0, 0) {
            break;
        }
        let (nx, ny) = ((x as i32 + dx as i32) as usize, (y as i32 + dy as i32) as usize);
        assert!(!g.is_wall(nx, ny));
        assert!(g.distance(nx, ny) < g.distance(x, y));
        x = nx;
        y = ny;
        steps += 1;
        assert!(steps <= g.distance(4, 0) as usize);
    }
    assert_eq!((x, y), (0, 0));
    // A forgotten target keeps the maps.
    let (flow, dist) = (g.get_flow_direction(4, 0), g.distance(4, 0));
    g.forget_target();
    assert_eq!((g.get_flow_direction(4, 0), g.distance(4, 0)), (flow, dist));
    assert_ne!(dist, BLOCKED);
}

#[test]
fn a_wider_tile_range_meets_every_wall_a_narrower_one_meets() {
    let g = grid_from(&["....", ".#..", "....", "...."]);
    assert!(g.check_collision_tiles(1, 1, 1, 1));
    assert!(g.check_collision_tiles(0, 3, 0, 3));
    assert!(g.check_collision_tiles(-5, 10, -5, 10));
    assert!(!g.check_collision_tiles(2, 3, 2, 3));
}
