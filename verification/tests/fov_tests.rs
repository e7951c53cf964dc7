use star_rogue::components::Position;
use star_rogue::fov::field_of_view;
use star_rogue::game::build_state;
use star_rogue::game::PlayerInput;
use star_rogue::grid_map::GridMap;
use star_rogue::grid_map::TileType;
use star_rogue::spawner;
use star_rogue::visibility_system::VisibilitySystem;
use star_rogue::world::World;

fn open_map(width: i32, height: i32) -> GridMap {
    let area = (width * height) as usize;
    let mut tiles = Vec::new();
    for i in 0..area {
        let x = i as i32 % width;
        let y = i as i32 / width;
        if x == 0 || y == 0 || x == width - 1 || y == height - 1 {
            tiles.push(TileType::Wall);
        } else {
            tiles.push(TileType::Floor);
        }
    }
    GridMap {
        width,
        height,
        tiles,
        rooms: Vec::new(),
        revealed_tiles: vec![false; area],
        visible_tiles: vec![false; area],
        blocked_tiles: vec![false; area],
        tile_content: vec![Vec::new(); area],
    }
}

/// A viewer standing in the open, at least eight tiles from any wall,
/// sees exactly the pinned field-of-view footprint for radius eight.
#[test]
fn open_field_viewshed_footprint_is_pinned() {
    let map = open_map(19, 19);
    let view = field_of_view(&map, 9, 9, 8);
    assert_eq!(view.len(), 197);
}

/// A wall tile is itself visible, but it hides the tiles behind it.
#[test]
fn walls_occlude_the_tiles_behind_them() {
    let mut map = open_map(12, 9);
    let wall_idx = map.xy_idx(4, 4);
    map.tiles[wall_idx] = TileType::Wall;
    let view = field_of_view(&map, 2, 4, 8);
    assert!(view.contains(&Position { x: 4, y: 4 }));
    assert!(!view.contains(&Position { x: 5, y: 4 }));
    assert!(!view.contains(&Position { x: 6, y: 4 }));
    assert!(view.contains(&Position { x: 3, y: 4 }));
}

/// No computed viewshed ever contains a tile of the outer boundary ring,
/// even with a view range far larger than the map.
#[test]
fn viewsheds_exclude_the_boundary_ring() {
    let mut map = open_map(15, 11);
    let mut world = World::new();
    let player = spawner::player(&mut world, 7, 5);
    VisibilitySystem::run(&mut world, &mut map, player);
    let view = match &world.viewsheds[player] {
        Some(v) => v.visible_tiles.clone(),
        None => panic!("player lost its viewshed"),
    };
    assert!(view.len() > 0);
    for p in view.iter() {
        assert!(p.x > 0 && p.x < 14 && p.y > 0 && p.y < 10);
    }
}

/// The player's pass marks its view visible and revealed on the map.
#[test]
fn player_view_feeds_the_fog_of_war() {
    let mut map = open_map(15, 11);
    let mut world = World::new();
    let player = spawner::player(&mut world, 7, 5);
    VisibilitySystem::run(&mut world, &mut map, player);
    assert!(map.tile_is_visible(7, 5));
    assert!(map.tile_is_revealed(7, 5));
    assert!(map.tile_is_visible(8, 5));
    // out of range: 7 + 8 = 15 exceeds the map, and the border is clipped
    assert!(!map.tile_is_visible(14, 5));
}

/// The revealed set never shrinks from turn to turn, while the visible
/// set tracks only the current view.
#[test]
fn revealed_tiles_are_monotonic_over_turns() {
    let mut state = build_state(60, 40, 21);
    assert!(!state.tick(PlayerInput::Idle), "bootstrap tick must not quit");
    let mut revealed_before = Vec::new();
    let (w, h) = state.map.get_dimensions();
    for x in 0..w {
        for y in 0..h {
            if state.map.tile_is_revealed(x, y) {
                revealed_before.push((x, y));
            }
        }
    }
    assert!(revealed_before.len() > 0);
    // a player turn and a monster turn later, everything once revealed stays revealed
    state.tick(PlayerInput::Move { dx: 1, dy: 0 });
    state.tick(PlayerInput::Idle);
    state.tick(PlayerInput::Idle);
    for (x, y) in revealed_before.iter() {
        assert!(state.map.tile_is_revealed(*x, *y));
    }
}
