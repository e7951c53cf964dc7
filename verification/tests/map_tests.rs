use star_rogue::grid_map::GridMap;
use star_rogue::grid_map::TileType;
use star_rogue::map_indexing_system::MapIndexingSystem;
use star_rogue::spawner;
use star_rogue::world::World;

/// Every tile on the outer boundary ring of a generated map is a wall.
#[test]
fn generated_map_has_sealed_boundary() {
    let map = GridMap::new(80, 43, 42);
    for x in 0..80 {
        for y in 0..43 {
            if x == 0 || y == 0 || x == 79 || y == 42 {
                assert_eq!(map.get_tile(x, y), TileType::Wall);
            }
        }
    }
}

/// Every placed room's interior is carved to floor.
#[test]
fn generated_rooms_are_carved_to_floor() {
    let map = GridMap::new(80, 43, 7);
    let count = map.get_room_count();
    assert!(count >= 1);
    for i in 0..count {
        let room = map.get_room(i);
        for x in (room.x1 + 1)..=room.x2 {
            for y in (room.y1 + 1)..=room.y2 {
                assert_eq!(map.get_tile(x, y), TileType::Floor);
            }
        }
    }
}

/// No two placed rooms overlap.
#[test]
fn generated_rooms_do_not_overlap() {
    let map = GridMap::new(80, 43, 1234);
    let count = map.get_room_count();
    for i in 0..count {
        for j in 0..count {
            if i != j {
                let a = map.get_room(i);
                let b = map.get_room(j);
                assert!(!a.intersect(&b));
            }
        }
    }
}

/// The flattened index mapping round-trips for every in-bounds coordinate.
#[test]
fn tile_index_round_trips() {
    let map = GridMap::new(80, 43, 5);
    for x in 0..80 {
        for y in 0..43 {
            let idx = map.xy_idx(x, y);
            let (rx, ry) = map.idx_to_xy(idx);
            assert_eq!((rx, ry), (x, y));
        }
    }
}

/// The same seed reproduces the same map; a different seed differs.
#[test]
fn generation_is_deterministic_in_the_seed() {
    let a = GridMap::new(60, 40, 99);
    let b = GridMap::new(60, 40, 99);
    let c = GridMap::new(60, 40, 100);
    assert_eq!(a.tiles, b.tiles);
    assert_eq!(a.rooms, b.rooms);
    let mut all_equal = true;
    for i in 0..a.tiles.len() {
        if a.tiles[i] != c.tiles[i] {
            all_equal = false;
        }
    }
    assert!(!all_equal);
}

/// Re-indexing marks a blocking entity's tile blocked, lists every
/// positioned entity on its tile, and leaves plain floor unblocked.
#[test]
fn reindex_rebuilds_blockage_and_occupancy() {
    let mut map = GridMap::new(40, 30, 11);
    let room = map.get_room(0);
    let (cx, cy) = room.centre();
    let mut world = World::new();
    let player = spawner::player(&mut world, cx, cy);
    let orc = spawner::orc(&mut world, cx + 1, cy);
    MapIndexingSystem::run(&world, &mut map);
    // the orc blocks its tile; the player (no blocking tag) does not
    assert!(map.tile_is_blocked(cx + 1, cy));
    assert!(!map.tile_is_blocked(cx, cy));
    assert_eq!(map.get_tile_content(cx, cy).clone(), vec![player]);
    assert_eq!(map.get_tile_content(cx + 1, cy).clone(), vec![orc]);
    // wall tiles stay blocked
    assert!(map.tile_is_blocked(0, 0));
}

/// Successive placed rooms are connected: the search finds a route from
/// each room's centre to the next room's centre.
#[test]
fn generated_room_centres_are_connected() {
    let map = GridMap::new(80, 43, 42);
    let count = map.get_room_count();
    assert!(count >= 1);
    for k in 0..count - 1 {
        let (ax, ay) = map.get_room(k).centre();
        let (bx, by) = map.get_room(k + 1).centre();
        let start = map.xy_idx(ax, ay);
        let goal = map.xy_idx(bx, by);
        let path = star_rogue::pathfinding::find_path(&map, start, goal);
        assert!(path.success);
        assert_eq!(path.steps[0], start);
        assert_eq!(*path.steps.last().unwrap(), goal);
    }
}
