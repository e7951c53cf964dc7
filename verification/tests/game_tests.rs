use star_rogue::components::Position;
use star_rogue::game::build_state;
use star_rogue::game::PlayerInput;
use star_rogue::game::RunState;
use star_rogue::gui::main_menu;
use star_rogue::gui::ItemMenuResult;
use star_rogue::gui::MainMenuResult;
use star_rogue::gui::MainMenuSelection;
use star_rogue::gui::MenuInput;
use star_rogue::rng::Rng;
use star_rogue::spawner;
use star_rogue::world::World;

/// The turn machine runs its fixed cycle: bootstrap, then input, player
/// turn, monster turn, and back to input.
#[test]
fn turn_cycle_follows_the_transition_table() {
    let mut state = build_state(60, 40, 17);
    assert_eq!(state.run_state, RunState::PreRun);
    state.tick(PlayerInput::Idle);
    assert_eq!(state.run_state, RunState::AwaitingInput);
    state.tick(PlayerInput::Idle);
    assert_eq!(state.run_state, RunState::AwaitingInput);
    state.tick(PlayerInput::Move { dx: 0, dy: 0 });
    assert_eq!(state.run_state, RunState::PlayerTurn);
    state.tick(PlayerInput::Idle);
    assert_eq!(state.run_state, RunState::MonsterTurn);
    state.tick(PlayerInput::Idle);
    assert_eq!(state.run_state, RunState::AwaitingInput);
}

/// The menu states pass through: opening, cancelling, and the save detour
/// to the main menu.
#[test]
fn menu_states_pass_through() {
    let mut state = build_state(60, 40, 17);
    state.tick(PlayerInput::Idle);
    state.tick(PlayerInput::OpenInventory);
    assert_eq!(state.run_state, RunState::ShowInventory);
    state.tick(PlayerInput::MenuCancel);
    assert_eq!(state.run_state, RunState::AwaitingInput);
    state.tick(PlayerInput::OpenDropMenu);
    assert_eq!(state.run_state, RunState::ShowDropItem);
    state.tick(PlayerInput::MenuCancel);
    assert_eq!(state.run_state, RunState::AwaitingInput);
    state.tick(PlayerInput::Save);
    assert_eq!(state.run_state, RunState::SaveGame);
    state.tick(PlayerInput::Idle);
    assert_eq!(
        state.run_state,
        RunState::MainMenu { menu_selection: MainMenuSelection::LoadGame },
    );
    // selecting a new game re-enters the bootstrap state; quit only reports
    state.tick(PlayerInput::MainMenuKey { key: MenuInput::Up });
    assert_eq!(
        state.run_state,
        RunState::MainMenu { menu_selection: MainMenuSelection::NewGame },
    );
    let quit = state.tick(PlayerInput::MainMenuKey { key: MenuInput::Select });
    assert!(!quit);
    assert_eq!(state.run_state, RunState::PreRun);
}

/// Quit from the main menu is reported to the caller.
#[test]
fn quit_is_reported_from_the_main_menu() {
    let mut state = build_state(60, 40, 23);
    state.run_state = RunState::MainMenu { menu_selection: MainMenuSelection::Quit };
    let quit = state.tick(PlayerInput::MainMenuKey { key: MenuInput::Select });
    assert!(quit);
}

/// Walking into a wall is a no-op; walking into the open moves the player
/// and spends the turn.
#[test]
fn moving_into_walls_does_nothing() {
    let mut state = build_state(60, 40, 31);
    state.tick(PlayerInput::Idle);
    let before = state.player_pos;
    // walk left until a wall stops the player
    for _ in 0..60 {
        state.tick(PlayerInput::Move { dx: -1, dy: 0 });
        state.tick(PlayerInput::Idle);
        state.tick(PlayerInput::Idle);
    }
    let stuck = state.player_pos;
    state.tick(PlayerInput::Move { dx: -1, dy: 0 });
    assert_eq!(state.player_pos, stuck);
    assert!(stuck.x >= 1);
    assert!(before.x >= stuck.x);
}

/// Picking up with nothing underfoot logs a line and does not spend the
/// turn; with a potion underfoot it spends the turn and the potion leaves
/// the floor.
#[test]
fn pickup_takes_the_item_off_the_floor() {
    let mut state = build_state(60, 40, 37);
    state.tick(PlayerInput::Idle);
    state.tick(PlayerInput::PickUp);
    assert_eq!(state.run_state, RunState::AwaitingInput);
    let here = state.player_pos;
    let potion = spawner::health_potion(&mut state.ecs, here.x, here.y);
    state.tick(PlayerInput::PickUp);
    assert_eq!(state.run_state, RunState::PlayerTurn);
    state.tick(PlayerInput::Idle);
    assert!(state.ecs.positions[potion].is_none());
    match &state.ecs.backpacks[potion] {
        Some(b) => assert_eq!(b.owner, state.player_entity),
        None => panic!("the potion was not picked up"),
    }
}

/// Drinking a health potion heals up to the maximum and consumes the
/// potion.
#[test]
fn using_a_potion_heals_and_consumes_it() {
    let mut state = build_state(60, 40, 41);
    state.tick(PlayerInput::Idle);
    let player = state.player_entity;
    let here = state.player_pos;
    let potion = spawner::health_potion(&mut state.ecs, here.x, here.y);
    // wound the player by 5, then drink: 8 healing clamps at the maximum
    match &mut state.ecs.combat_stats[player] {
        Some(s) => s.current_hp = 25,
        None => panic!("the player has no statistics"),
    }
    state.tick(PlayerInput::OpenInventory);
    state.tick(PlayerInput::MenuSelect { item: potion });
    assert_eq!(state.run_state, RunState::PlayerTurn);
    state.tick(PlayerInput::Idle);
    match &state.ecs.combat_stats[player] {
        Some(s) => assert_eq!(s.current_hp, 30),
        None => panic!("the player lost its statistics"),
    }
    assert!(!state.ecs.alive[potion], "a consumable is destroyed by use");
}

/// Selecting a ranged scroll opens targeting; aiming it at a monster
/// funnels the damage through the shared accumulator pipeline.
#[test]
fn ranged_scroll_goes_through_targeting() {
    let mut state = build_state(60, 40, 43);
    state.tick(PlayerInput::Idle);
    let here = state.player_pos;
    let scroll = spawner::magic_missile_scroll(&mut state.ecs, here.x, here.y);
    let victim = spawner::orc(&mut state.ecs, here.x + 1, here.y);
    state.tick(PlayerInput::OpenInventory);
    state.tick(PlayerInput::MenuSelect { item: scroll });
    assert_eq!(state.run_state, RunState::ShowTargeting { range: 6, item: scroll });
    state.tick(PlayerInput::Target { x: here.x + 1, y: here.y });
    assert_eq!(state.run_state, RunState::PlayerTurn);
    // the hit lands in the accumulator this pass and is applied by the
    // next pass's damage phase
    state.tick(PlayerInput::Idle);
    state.tick(PlayerInput::Idle);
    match &state.ecs.combat_stats[victim] {
        Some(s) => assert_eq!(s.current_hp, 16 - 8),
        None => panic!("the victim vanished"),
    }
}

/// Dropping a carried item puts it back on the floor at the dropper's
/// tile.
#[test]
fn dropping_returns_the_item_to_the_floor() {
    let mut state = build_state(60, 40, 47);
    state.tick(PlayerInput::Idle);
    let here = state.player_pos;
    let potion = spawner::health_potion(&mut state.ecs, here.x, here.y);
    state.tick(PlayerInput::PickUp);
    state.tick(PlayerInput::Idle);
    state.tick(PlayerInput::Idle);
    assert!(state.ecs.positions[potion].is_none());
    state.tick(PlayerInput::OpenDropMenu);
    state.tick(PlayerInput::MenuSelect { item: potion });
    state.tick(PlayerInput::Idle);
    assert_eq!(state.ecs.positions[potion], Some(state.player_pos));
    assert!(state.ecs.backpacks[potion].is_none());
}

/// The main-menu transition cycles the highlight with wrap-around and
/// confirms on select.
#[test]
fn main_menu_cycles_and_selects() {
    let up = main_menu(MainMenuSelection::NewGame, MenuInput::Up);
    assert_eq!(up, MainMenuResult::NoSelection { selected: MainMenuSelection::Quit });
    let down = main_menu(MainMenuSelection::Quit, MenuInput::Down);
    assert_eq!(down, MainMenuResult::NoSelection { selected: MainMenuSelection::NewGame });
    let pick = main_menu(MainMenuSelection::LoadGame, MenuInput::Select);
    assert_eq!(pick, MainMenuResult::Selected { selected: MainMenuSelection::LoadGame });
    let idle = main_menu(MainMenuSelection::LoadGame, MenuInput::Idle);
    assert_eq!(idle, MainMenuResult::NoSelection { selected: MainMenuSelection::LoadGame });
    assert_ne!(ItemMenuResult::Cancel, ItemMenuResult::Selected);
}

/// The spawner gives the player its standard records.
#[test]
fn spawned_player_carries_the_standard_records() {
    let mut world = World::new();
    let player = spawner::player(&mut world, 5, 6);
    assert!(world.alive[player]);
    assert_eq!(world.positions[player], Some(Position { x: 5, y: 6 }));
    assert!(world.players[player].is_some());
    assert!(world.monsters[player].is_none());
    match &world.combat_stats[player] {
        Some(s) => {
            assert_eq!((s.max_hp, s.current_hp, s.defense, s.power), (30, 30, 2, 5));
        },
        None => panic!("the player has no statistics"),
    }
    match &world.viewsheds[player] {
        Some(v) => {
            assert_eq!(v.range, 8);
            assert!(v.dirty);
            assert_eq!(v.visible_tiles.len(), 0);
        },
        None => panic!("the player has no viewshed"),
    }
    match &world.names[player] {
        Some(n) => assert_eq!(n.name.as_str(), "Player"),
        None => panic!("the player has no name"),
    }
}

/// The generator draws values in the half-open range it is asked for, and
/// dice sum within their bounds, deterministically in the seed.
#[test]
fn rng_respects_ranges_and_seeds() {
    let mut a = Rng::seeded(9);
    let mut b = Rng::seeded(9);
    for _ in 0..100 {
        let va = a.range(3, 9);
        let vb = b.range(3, 9);
        assert_eq!(va, vb);
        assert!(va >= 3 && va < 9);
    }
    let mut c = Rng::seeded(10);
    for _ in 0..100 {
        let roll = c.roll_dice(3, 6);
        assert!(roll >= 3 && roll <= 18);
    }
}
