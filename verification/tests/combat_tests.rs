use star_rogue::components::CombatStats;
use star_rogue::components::Position;
use star_rogue::components::SufferDamage;
use star_rogue::components::WantsToMelee;
use star_rogue::damage_system::DamageSystem;
use star_rogue::damage_system::delete_the_dead;
use star_rogue::game::RunState;
use star_rogue::game::State;
use star_rogue::game::PlayerInput;
use star_rogue::game_log::GameLog;
use star_rogue::grid_map::GridMap;
use star_rogue::melee_combat_system::MeleeCombatSystem;
use star_rogue::rng::Rng;
use star_rogue::spawner;
use star_rogue::world::World;

fn arena() -> (World, GridMap) {
    let map = GridMap::new(30, 20, 3);
    let world = World::new();
    (world, map)
}

/// Two simultaneous attackers dealing 3 and 5 to one target decrease its
/// hit points by exactly 8 in a single application.
#[test]
fn simultaneous_damage_accumulates_before_applying() {
    let (mut world, map) = arena();
    let room = map.get_room(0);
    let (cx, cy) = room.centre();
    let target = spawner::orc(&mut world, cx, cy);
    let a1 = spawner::orc(&mut world, cx + 1, cy);
    let a2 = spawner::orc(&mut world, cx - 1, cy);
    // attacker damage is power - defense; the target's defense is 1
    world.combat_stats[a1] = Some(CombatStats::new(16, 1, 4)); // deals 3
    world.combat_stats[a2] = Some(CombatStats::new(16, 1, 6)); // deals 5
    world.wants_melee[a1] = Some(WantsToMelee { target });
    world.wants_melee[a2] = Some(WantsToMelee { target });
    MeleeCombatSystem::run(&mut world);
    match &world.suffer_damage[target] {
        Some(s) => assert_eq!(s.amount, vec![3, 5]),
        None => panic!("the accumulator was not filled"),
    }
    DamageSystem::run(&mut world);
    match &world.combat_stats[target] {
        Some(s) => assert_eq!(s.current_hp, 8),
        None => panic!("the target lost its statistics"),
    }
    assert!(world.suffer_damage[target].is_none());
}

/// An attack that cannot pierce the defense mutates nothing: no damage
/// record appears and the target's hit points stay unchanged.
#[test]
fn ineffectual_attack_creates_no_damage_record() {
    let (mut world, map) = arena();
    let room = map.get_room(0);
    let (cx, cy) = room.centre();
    let target = spawner::orc(&mut world, cx, cy);
    let attacker = spawner::orc(&mut world, cx + 1, cy);
    world.combat_stats[attacker] = Some(CombatStats::new(16, 1, 2)); // power 2
    world.combat_stats[target] = Some(CombatStats::new(16, 5, 4));  // defense 5
    world.wants_melee[attacker] = Some(WantsToMelee { target });
    MeleeCombatSystem::run(&mut world);
    assert!(world.suffer_damage[target].is_none());
    DamageSystem::run(&mut world);
    match &world.combat_stats[target] {
        Some(s) => assert_eq!(s.current_hp, 16),
        None => panic!("the target lost its statistics"),
    }
    // the intent was consumed either way
    assert!(world.wants_melee[attacker].is_none());
}

fn small_session() -> State {
    let map = GridMap::new(30, 20, 8);
    let room = map.get_room(0);
    let (cx, cy) = room.centre();
    let mut world = World::new();
    let player = spawner::player(&mut world, cx, cy);
    State {
        ecs: world,
        map,
        player_entity: player,
        player_pos: Position { x: cx, y: cy },
        run_state: RunState::PlayerTurn,
        log: GameLog::new("test".to_string()),
        rng: Rng::seeded(4),
    }
}

/// The standard player attacker against the standard monster lands
/// max(0, 5 - 1) = 4 damage: after one player-turn pass the monster sits
/// at 12 of its 16 hit points.
#[test]
fn player_melee_pass_deals_four_to_a_fresh_monster() {
    let mut state = small_session();
    let (cx, cy) = (state.player_pos.x, state.player_pos.y);
    let monster = spawner::orc(&mut state.ecs, cx + 1, cy);
    state.ecs.wants_melee[state.player_entity] = Some(WantsToMelee { target: monster });
    state.tick(PlayerInput::Idle);
    match &state.ecs.combat_stats[monster] {
        Some(s) => assert_eq!(s.current_hp, 12),
        None => panic!("the monster vanished"),
    }
    assert_eq!(state.run_state, RunState::MonsterTurn);
}

/// An entity at zero hit points is gone after the next pipeline pass; the
/// designated player persists even when dead.
#[test]
fn death_sweep_removes_the_dead_but_never_the_player() {
    let mut state = small_session();
    let (cx, cy) = (state.player_pos.x, state.player_pos.y);
    let monster = spawner::orc(&mut state.ecs, cx + 1, cy);
    state.ecs.combat_stats[monster] = Some(CombatStats {
        max_hp: 16,
        current_hp: 0,
        defense: 1,
        power: 4,
    });
    let player = state.player_entity;
    state.ecs.combat_stats[player] = Some(CombatStats {
        max_hp: 30,
        current_hp: 0,
        defense: 2,
        power: 5,
    });
    state.tick(PlayerInput::Idle);
    assert!(!state.ecs.alive[monster]);
    assert!(state.ecs.positions[monster].is_none());
    assert!(state.ecs.alive[player]);
    let last = &state.log.entries[state.log.entries.len() - 1];
    assert_eq!(last.as_str(), "You are dead!");
}

/// The direct sweep reports the player's death without deleting it.
#[test]
fn delete_the_dead_reports_player_death() {
    let (mut world, map) = arena();
    let room = map.get_room(0);
    let (cx, cy) = room.centre();
    let player = spawner::player(&mut world, cx, cy);
    world.combat_stats[player] = Some(CombatStats::new(0, 2, 5));
    let died = delete_the_dead(&mut world, player);
    assert!(died);
    assert!(world.alive[player]);
}

/// A later melee intent overwrites the earlier one: one intent per entity
/// per turn.
#[test]
fn melee_intents_do_not_stack() {
    let (mut world, map) = arena();
    let room = map.get_room(0);
    let (cx, cy) = room.centre();
    let target_a = spawner::orc(&mut world, cx, cy);
    let target_b = spawner::orc(&mut world, cx + 1, cy + 1);
    let attacker = spawner::orc(&mut world, cx + 1, cy);
    world.wants_melee[attacker] = Some(WantsToMelee { target: target_a });
    world.wants_melee[attacker] = Some(WantsToMelee { target: target_b });
    MeleeCombatSystem::run(&mut world);
    assert!(world.suffer_damage[target_a].is_none());
    match &world.suffer_damage[target_b] {
        Some(s) => assert_eq!(s.amount, vec![3]),
        None => panic!("the second intent was lost"),
    }
}

/// The accumulator helper appends to an existing record and creates a
/// fresh one when none exists.
#[test]
fn new_damage_appends_or_creates() {
    let mut store: Vec<Option<SufferDamage>> = vec![None, None];
    SufferDamage::new_damage(&mut store, 1, 3);
    SufferDamage::new_damage(&mut store, 1, 5);
    match &store[1] {
        Some(s) => assert_eq!(s.amount, vec![3, 5]),
        None => panic!("no record was created"),
    }
    assert!(store[0].is_none());
}
