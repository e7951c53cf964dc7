use star_rogue::grid_map::GridMap;
use star_rogue::grid_map::TileType;
use star_rogue::pathfinding::find_path;
use star_rogue::pathfinding::CARDINAL_COST;
use star_rogue::pathfinding::DIAGONAL_COST;

fn open_map(width: i32, height: i32) -> GridMap {
    let area = (width * height) as usize;
    let mut tiles = Vec::new();
    for i in 0..area {
        let x = i as i32 % width;
        let y = i as i32 / width;
        if x == 0 || y == 0 || x == width - 1 || y == height - 1 {
            tiles.push(TileType::Wall);
        } else {
            tiles.push(TileType::Floor);
        }
    }
    let mut map = GridMap {
        width,
        height,
        tiles,
        rooms: Vec::new(),
        revealed_tiles: vec![false; area],
        visible_tiles: vec![false; area],
        blocked_tiles: vec![false; area],
        tile_content: vec![Vec::new(); area],
    };
    map.update_blocked_tiles();
    map
}

/// With an unblocked route available the search succeeds, and the returned
/// steps run from start to goal over adjacent, unblocked tiles.
#[test]
fn route_found_and_every_step_is_sound() {
    let map = open_map(20, 15);
    let start = map.xy_idx(2, 2);
    let goal = map.xy_idx(16, 11);
    let path = find_path(&map, start, goal);
    assert!(path.success);
    assert!(path.steps.len() >= 2);
    assert_eq!(path.steps[0], start);
    assert_eq!(path.steps[path.steps.len() - 1], goal);
    for i in 0..path.steps.len() - 1 {
        let (ax, ay) = map.idx_to_xy(path.steps[i]);
        let (bx, by) = map.idx_to_xy(path.steps[i + 1]);
        let dx = (bx - ax).abs();
        let dy = (by - ay).abs();
        assert!(dx <= 1 && dy <= 1 && (dx, dy) != (0, 0));
        assert!(!map.tile_is_blocked(bx, by));
        assert!(bx >= 1 && bx <= 18 && by >= 1 && by <= 13);
    }
}

/// A goal walled in on all eight sides cannot be reached: the search
/// reports failure with an empty step list.
#[test]
fn enclosed_goal_yields_failure_with_no_steps() {
    let mut map = open_map(20, 15);
    for dx in -1..=1 {
        for dy in -1..=1 {
            if (dx, dy) != (0, 0) {
                let i = map.xy_idx(10 + dx, 7 + dy);
                map.tiles[i] = TileType::Wall;
            }
        }
    }
    map.update_blocked_tiles();
    let start = map.xy_idx(2, 2);
    let goal = map.xy_idx(10, 7);
    let path = find_path(&map, start, goal);
    assert!(!path.success);
    assert_eq!(path.steps.len(), 0);
}

/// Searching for the tile one stands on succeeds trivially.
#[test]
fn start_equals_goal_is_a_one_step_route() {
    let map = open_map(20, 15);
    let start = map.xy_idx(4, 4);
    let path = find_path(&map, start, start);
    assert!(path.success);
    assert_eq!(path.steps, vec![start]);
}

/// The movement graph lists exactly the exit-valid neighbours, cardinal
/// steps at the cardinal cost and diagonal ones at the 1.45 tuning ratio.
#[test]
fn exits_carry_the_tuned_weights() {
    let map = open_map(20, 15);
    let exits = map.get_available_exits(map.xy_idx(5, 5));
    assert_eq!(exits.len(), 8);
    let mut cardinal = 0;
    let mut diagonal = 0;
    for (target, cost) in exits.iter() {
        let (x, y) = map.idx_to_xy(*target);
        if x == 5 || y == 5 {
            assert_eq!(*cost, CARDINAL_COST);
            cardinal += 1;
        } else {
            assert_eq!(*cost, DIAGONAL_COST);
            diagonal += 1;
        }
    }
    assert_eq!((cardinal, diagonal), (4, 4));
    // a corner tile only has the three inward exits
    let corner_exits = map.get_available_exits(map.xy_idx(1, 1));
    assert_eq!(corner_exits.len(), 3);
}
