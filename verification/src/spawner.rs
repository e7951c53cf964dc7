//! Spawning: builds the player, monsters and items as entities with their
//! component records. Room population draws counts and tiles from the
//! deterministic generator, rejecting duplicate tiles.

use vstd::prelude::*;
use crate::components::AreaOfEffect;
use crate::components::BlocksTile;
use crate::components::CombatStats;
use crate::components::Confusion;
use crate::components::Consumable;
use crate::components::InflictsDamage;
use crate::components::Item;
use crate::components::Monster;
use crate::components::Name;
use crate::components::Player;
use crate::components::Position;
use crate::components::ProvidesHealing;
use crate::components::Ranged;
use crate::components::Renderable;
use crate::components::Rgb;
use crate::components::ViewShed;
use crate::rect::Rect;
use crate::rng::Rng;
use crate::world::Entity;
use crate::world::World;

verus! {

/// Most monsters a room may spawn.
pub const MAX_MONSTERS_PER_ROOM: i32 = 4;

/// Most items a room may spawn.
pub const MAX_ITEMS_PER_ROOM: i32 = 2;

/// Entity `e` carries no one-turn intent, no carried-item state and no
/// leftover marker.
pub open spec fn no_transients(w: World, e: int) -> bool {
    &&& w.left_movers@[e] is None
    &&& w.wants_melee@[e] is None
    &&& w.suffer_damage@[e] is None
    &&& w.backpacks@[e] is None
    &&& w.wants_pickup@[e] is None
    &&& w.wants_use@[e] is None
    &&& w.wants_drop@[e] is None
}

/// Entity `e` is the freshly spawned player at `(x, y)`.
pub open spec fn spawned_player(w: World, e: int, x: i32, y: i32) -> bool {
    &&& w.is_alive(e)
    &&& w.positions@[e] == Some(Position { x, y })
    &&& w.renderables@[e] == Some(
        Renderable {
            glyph: 64u8,
            foreground: Rgb { r: 255, g: 255, b: 0 },
            background: Rgb { r: 0, g: 0, b: 0 },
            render_order: 0,
        },
    )
    &&& w.players@[e] is Some
    &&& w.viewsheds@[e] is Some
    &&& w.viewsheds@[e]->Some_0.visible_tiles@.len() == 0
    &&& w.viewsheds@[e]->Some_0.range == 8
    &&& w.viewsheds@[e]->Some_0.dirty
    &&& w.names@[e] is Some
    &&& w.names@[e]->Some_0.name@ == "Player"@
    &&& w.combat_stats@[e] == Some(
        CombatStats { max_hp: 30, current_hp: 30, defense: 2, power: 5 },
    )
    &&& w.monsters@[e] is None
    &&& w.blocks_tile@[e] is None
    &&& w.items@[e] is None
    &&& w.consumables@[e] is None
    &&& w.provides_healing@[e] is None
    &&& w.inflicts_damage@[e] is None
    &&& w.area_effects@[e] is None
    &&& w.ranged@[e] is None
    &&& w.confusions@[e] is None
    &&& no_transients(w, e)
}

/// Entity `e` is a freshly spawned monster at `(x, y)` with the given
/// glyph and name.
pub open spec fn spawned_monster(w: World, e: int, x: i32, y: i32, glyph: u8, name: Seq<
    char,
>) -> bool {
    &&& w.is_alive(e)
    &&& w.positions@[e] == Some(Position { x, y })
    &&& w.renderables@[e] == Some(
        Renderable {
            glyph,
            foreground: Rgb { r: 255, g: 0, b: 0 },
            background: Rgb { r: 0, g: 0, b: 0 },
            render_order: 1,
        },
    )
    &&& w.monsters@[e] is Some
    &&& w.viewsheds@[e] is Some
    &&& w.viewsheds@[e]->Some_0.visible_tiles@.len() == 0
    &&& w.viewsheds@[e]->Some_0.range == 8
    &&& w.viewsheds@[e]->Some_0.dirty
    &&& w.names@[e] is Some
    &&& w.names@[e]->Some_0.name@ == name
    &&& w.blocks_tile@[e] is Some
    &&& w.combat_stats@[e] == Some(
        CombatStats { max_hp: 16, current_hp: 16, defense: 1, power: 4 },
    )
    &&& w.players@[e] is None
    &&& w.items@[e] is None
    &&& w.consumables@[e] is None
    &&& w.provides_healing@[e] is None
    &&& w.inflicts_damage@[e] is None
    &&& w.area_effects@[e] is None
    &&& w.ranged@[e] is None
    &&& w.confusions@[e] is None
    &&& no_transients(w, e)
}

/// Entity `e` is a freshly spawned floor item at `(x, y)`: the shared part
/// of every item kind.
pub open spec fn spawned_item_base(w: World, e: int, x: i32, y: i32, glyph: u8, fg: Rgb, name: Seq<
    char,
>) -> bool {
    &&& w.is_alive(e)
    &&& w.positions@[e] == Some(Position { x, y })
    &&& w.renderables@[e] == Some(
        Renderable {
            glyph,
            foreground: fg,
            background: Rgb { r: 0, g: 0, b: 0 },
            render_order: 2,
        },
    )
    &&& w.items@[e] is Some
    &&& w.names@[e] is Some
    &&& w.names@[e]->Some_0.name@ == name
    &&& w.players@[e] is None
    &&& w.monsters@[e] is None
    &&& w.viewsheds@[e] is None
    &&& w.blocks_tile@[e] is None
    &&& w.combat_stats@[e] is None
    &&& no_transients(w, e)
}

pub open spec fn spawned_health_potion(w: World, e: int, x: i32, y: i32) -> bool {
    &&& spawned_item_base(
        w,
        e,
        x,
        y,
        105u8,
        Rgb { r: 255, g: 0, b: 255 },
        "Health Potion"@,
    )
    &&& w.consumables@[e] is Some
    &&& w.provides_healing@[e] == Some(ProvidesHealing { heal_amount: 8 })
    &&& w.inflicts_damage@[e] is None
    &&& w.area_effects@[e] is None
    &&& w.ranged@[e] is None
    &&& w.confusions@[e] is None
}

pub open spec fn spawned_magic_missile_scroll(w: World, e: int, x: i32, y: i32) -> bool {
    &&& spawned_item_base(
        w,
        e,
        x,
        y,
        41u8,
        Rgb { r: 0, g: 255, b: 255 },
        "Scroll of Magic Missle"@,
    )
    &&& w.consumables@[e] is None
    &&& w.provides_healing@[e] is None
    &&& w.ranged@[e] == Some(Ranged { range: 6 })
    &&& w.inflicts_damage@[e] == Some(InflictsDamage { damage: 8 })
    &&& w.area_effects@[e] is None
    &&& w.confusions@[e] is None
}

pub open spec fn spawned_fireball_scroll(w: World, e: int, x: i32, y: i32) -> bool {
    &&& spawned_item_base(
        w,
        e,
        x,
        y,
        41u8,
        Rgb { r: 255, g: 165, b: 0 },
        "Scroll of Fireball"@,
    )
    &&& w.consumables@[e] is None
    &&& w.provides_healing@[e] is None
    &&& w.ranged@[e] == Some(Ranged { range: 6 })
    &&& w.inflicts_damage@[e] == Some(InflictsDamage { damage: 20 })
    &&& w.area_effects@[e] == Some(AreaOfEffect { radius: 3 })
    &&& w.confusions@[e] is None
}

pub open spec fn spawned_confusion_scroll(w: World, e: int, x: i32, y: i32) -> bool {
    &&& spawned_item_base(
        w,
        e,
        x,
        y,
        41u8,
        Rgb { r: 255, g: 192, b: 203 },
        "Scroll of Confusion"@,
    )
    &&& w.consumables@[e] is None
    &&& w.provides_healing@[e] is None
    &&& w.ranged@[e] == Some(Ranged { range: 6 })
    &&& w.inflicts_damage@[e] is None
    &&& w.area_effects@[e] == Some(AreaOfEffect { radius: 3 })
    &&& w.confusions@[e] == Some(Confusion { turns: 4 })
}

/// One of the monster or item shapes spawned into rooms.
pub open spec fn spawned_room_dweller(w: World, e: int, x: i32, y: i32) -> bool {
    ||| spawned_monster(w, e, x, y, 111u8, "Orc"@)
    ||| spawned_monster(w, e, x, y, 103u8, "Goblin"@)
    ||| spawned_health_potion(w, e, x, y)
    ||| spawned_magic_missile_scroll(w, e, x, y)
    ||| spawned_fireball_scroll(w, e, x, y)
    ||| spawned_confusion_scroll(w, e, x, y)
}

/// Entity `e` is a room dweller standing somewhere strictly inside `room`.
pub open spec fn dweller_in_room(w: World, room: Rect, e: int) -> bool {
    exists|x: i32, y: i32|
        room.interior_contains(x as int, y as int) && #[trigger] spawned_room_dweller(w, e, x, y)
}

/// Spawns the player entity at `(player_x, player_y)`.
pub fn player(world: &mut World, player_x: i32, player_y: i32) -> (e: Entity)
    requires
        old(world).wf(),
        old(world).num_entities() < usize::MAX,
    ensures
        final(world).wf(),
        e == old(world).num_entities(),
        final(world).num_entities() == old(world).num_entities() + 1,
        spawned_player(*final(world), e as int, player_x, player_y),
        forall|j: int|
            0 <= j < old(world).num_entities() ==> World::same_entity(*old(world), *final(world), j),
{
    broadcast use vstd::string::to_string_from_display_ensures_for_str;

    let e = world.create_entity();
    let ghost w_mid = *world;
    world.positions[e] = Some(Position { x: player_x, y: player_y });
    world.renderables[e] = Some(
        Renderable {
            glyph: 64,
            foreground: Rgb { r: 255, g: 255, b: 0 },
            background: Rgb { r: 0, g: 0, b: 0 },
            render_order: 0,
        },
    );
    world.players[e] = Some(Player {});
    world.viewsheds[e] = Some(ViewShed { visible_tiles: Vec::new(), range: 8, dirty: true });
    world.names[e] = Some(Name { name: "Player".to_string() });
    world.combat_stats[e] = Some(CombatStats::new(30, 2, 5));
    proof {
        assert forall|j: int|
            0 <= j < old(world).num_entities() implies World::same_entity(
            *old(world),
            *world,
            j,
        ) by {
            assert(World::same_entity(*old(world), w_mid, j));
            assert(World::same_entity(w_mid, *world, j));
        }
    }
    e
}

/// Spawns a monster with the given glyph and display name at `(x, y)`.
fn monster(world: &mut World, x: i32, y: i32, glyph: u8, name: &str) -> (e: Entity)
    requires
        old(world).wf(),
        old(world).num_entities() < usize::MAX,
    ensures
        final(world).wf(),
        e == old(world).num_entities(),
        final(world).num_entities() == old(world).num_entities() + 1,
        spawned_monster(*final(world), e as int, x, y, glyph, name@),
        forall|j: int|
            0 <= j < old(world).num_entities() ==> World::same_entity(*old(world), *final(world), j),
{
    broadcast use vstd::string::to_string_from_display_ensures_for_str;

    let e = world.create_entity();
    let ghost w_mid = *world;
    world.positions[e] = Some(Position { x, y });
    world.renderables[e] = Some(
        Renderable {
            glyph,
            foreground: Rgb { r: 255, g: 0, b: 0 },
            background: Rgb { r: 0, g: 0, b: 0 },
            render_order: 1,
        },
    );
    world.viewsheds[e] = Some(ViewShed { visible_tiles: Vec::new(), range: 8, dirty: true });
    world.monsters[e] = Some(Monster {});
    world.names[e] = Some(Name { name: name.to_string() });
    world.blocks_tile[e] = Some(BlocksTile {});
    world.combat_stats[e] = Some(CombatStats::new(16, 1, 4));
    proof {
        assert forall|j: int|
            0 <= j < old(world).num_entities() implies World::same_entity(
            *old(world),
            *world,
            j,
        ) by {
            assert(World::same_entity(*old(world), w_mid, j));
            assert(World::same_entity(w_mid, *world, j));
        }
    }
    e
}

/// Spawns an orc at `(x, y)`.
pub fn orc(world: &mut World, x: i32, y: i32) -> (e: Entity)
    requires
        old(world).wf(),
        old(world).num_entities() < usize::MAX,
    ensures
        final(world).wf(),
        e == old(world).num_entities(),
        final(world).num_entities() == old(world).num_entities() + 1,
        spawned_monster(*final(world), e as int, x, y, 111u8, "Orc"@),
        forall|j: int|
            0 <= j < old(world).num_entities() ==> World::same_entity(*old(world), *final(world), j),
{
    monster(world, x, y, 111, "Orc")
}

/// Spawns a goblin at `(x, y)`.
pub fn goblin(world: &mut World, x: i32, y: i32) -> (e: Entity)
    requires
        old(world).wf(),
        old(world).num_entities() < usize::MAX,
    ensures
        final(world).wf(),
        e == old(world).num_entities(),
        final(world).num_entities() == old(world).num_entities() + 1,
        spawned_monster(*final(world), e as int, x, y, 103u8, "Goblin"@),
        forall|j: int|
            0 <= j < old(world).num_entities() ==> World::same_entity(*old(world), *final(world), j),
{
    monster(world, x, y, 103, "Goblin")
}

/// Spawns either an orc or a goblin at `(x, y)`, by a die roll.
pub fn random_monster(world: &mut World, rng: &mut Rng, x: i32, y: i32)
    requires
        old(world).wf(),
        old(rng).wf(),
        old(world).num_entities() < usize::MAX,
    ensures
        final(world).wf(),
        final(rng).wf(),
        final(world).num_entities() == old(world).num_entities() + 1,
        spawned_monster(*final(world), old(world).num_entities(), x, y, 111u8, "Orc"@)
            || spawned_monster(*final(world), old(world).num_entities(), x, y, 103u8, "Goblin"@),
        forall|j: int|
            0 <= j < old(world).num_entities() ==> World::same_entity(*old(world), *final(world), j),
{
    let roll = rng.roll_dice(1, 2);
    if roll == 1 {
        orc(world, x, y);
    } else {
        goblin(world, x, y);
    }
}

/// Spawns a health potion at `(x, y)`.
pub fn health_potion(world: &mut World, x: i32, y: i32) -> (e: Entity)
    requires
        old(world).wf(),
        old(world).num_entities() < usize::MAX,
    ensures
        final(world).wf(),
        e == old(world).num_entities(),
        final(world).num_entities() == old(world).num_entities() + 1,
        spawned_health_potion(*final(world), e as int, x, y),
        forall|j: int|
            0 <= j < old(world).num_entities() ==> World::same_entity(*old(world), *final(world), j),
{
    broadcast use vstd::string::to_string_from_display_ensures_for_str;

    let e = world.create_entity();
    let ghost w_mid = *world;
    world.positions[e] = Some(Position { x, y });
    world.renderables[e] = Some(
        Renderable {
            glyph: 105,
            foreground: Rgb { r: 255, g: 0, b: 255 },
            background: Rgb { r: 0, g: 0, b: 0 },
            render_order: 2,
        },
    );
    world.names[e] = Some(Name { name: "Health Potion".to_string() });
    world.items[e] = Some(Item {});
    world.consumables[e] = Some(Consumable {});
    world.provides_healing[e] = Some(ProvidesHealing { heal_amount: 8 });
     proof {
        assert forall|j: int|
            0 <= j < old(world).num_entities() implies World::same_entity(
            *old(world),
            *world,
            j,
        ) by {
            assert(World::same_entity(*old(world), w_mid, j));
            assert(World::same_entity(w_mid, *world, j));
        }
    }
    e
}

/// Spawns a magic-missile scroll at `(x, y)`.
pub fn magic_missile_scroll(world: &mut World, x: i32, y: i32) -> (e: Entity)
    requires
        old(world).wf(),
        old(world).num_entities() < usize::MAX,
    ensures
        final(world).wf(),
        e == old(world).num_entities(),
        final(world).num_entities() == old(world).num_entities() + 1,
        spawned_magic_missile_scroll(*final(world), e as int, x, y),
        forall|j: int|
            0 <= j < old(world).num_entities() ==> World::same_entity(*old(world), *final(world), j),
{
    broadcast use vstd::string::to_string_from_display_ensures_for_str;

    let e = world.create_entity();
    let ghost w_mid = *world;
    world.positions[e] = Some(Position { x, y });
    world.renderables[e] = Some(
        Renderable {
            glyph: 41,
            foreground: Rgb { r: 0, g: 255, b: 255 },
            background: Rgb { r: 0, g: 0, b: 0 },
            render_order: 2,
        },
    );
    world.names[e] = Some(Name { name: "Scroll of Magic Missle".to_string() });
    world.items[e] = Some(Item {});
    world.ranged[e] = Some(Ranged { range: 6 });
    world.inflicts_damage[e] = Some(InflictsDamage { damage: 8 });
     proof {
        assert forall|j: int|
            0 <= j < old(world).num_entities() implies World::same_entity(
            *old(world),
            *world,
            j,
        ) by {
            assert(World::same_entity(*old(world), w_mid, j));
            assert(World::same_entity(w_mid, *world, j));
        }
    }
    e
}

/// Spawns a fireball scroll at `(x, y)`.
pub fn fireball_scroll(world: &mut World, x: i32, y: i32) -> (e: Entity)
    requires
        old(world).wf(),
        old(world).num_entities() < usize::MAX,
    ensures
        final(world).wf(),
        e == old(world).num_entities(),
        final(world).num_entities() == old(world).num_entities() + 1,
        spawned_fireball_scroll(*final(world), e as int, x, y),
        forall|j: int|
            0 <= j < old(world).num_entities() ==> World::same_entity(*old(world), *final(world), j),
{
    broadcast use vstd::string::to_string_from_display_ensures_for_str;

    let e = world.create_entity();
    let ghost w_mid = *world;
    world.positions[e] = Some(Position { x, y });
    world.renderables[e] = Some(
        Renderable {
            glyph: 41,
            foreground: Rgb { r: 255, g: 165, b: 0 },
            background: Rgb { r: 0, g: 0, b: 0 },
            render_order: 2,
        },
    );
    world.names[e] = Some(Name { name: "Scroll of Fireball".to_string() });
    world.items[e] = Some(Item {});
    world.ranged[e] = Some(Ranged { range: 6 });
    world.inflicts_damage[e] = Some(InflictsDamage { damage: 20 });
    world.area_effects[e] = Some(AreaOfEffect { radius: 3 });
     proof {
        assert forall|j: int|
            0 <= j < old(world).num_entities() implies World::same_entity(
            *old(world),
            *world,
            j,
        ) by {
            assert(World::same_entity(*old(world), w_mid, j));
            assert(World::same_entity(w_mid, *world, j));
        }
    }
    e
}

/// Spawns a confusion scroll at `(x, y)`.
pub fn confusion_scroll(world: &mut World, x: i32, y: i32) -> (e: Entity)
    requires
        old(world).wf(),
        old(world).num_entities() < usize::MAX,
    ensures
        final(world).wf(),
        e == old(world).num_entities(),
        final(world).num_entities() == old(world).num_entities() + 1,
        spawned_confusion_scroll(*final(world), e as int, x, y),
        forall|j: int|
            0 <= j < old(world).num_entities() ==> World::same_entity(*old(world), *final(world), j),
{
    broadcast use vstd::string::to_string_from_display_ensures_for_str;

    let e = world.create_entity();
    let ghost w_mid = *world;
    world.positions[e] = Some(Position { x, y });
    world.renderables[e] = Some(
        Renderable {
            glyph: 41,
            foreground: Rgb { r: 255, g: 192, b: 203 },
            background: Rgb { r: 0, g: 0, b: 0 },
            render_order: 2,
        },
    );
    world.names[e] = Some(Name { name: "Scroll of Confusion".to_string() });
    world.items[e] = Some(Item {});
    world.ranged[e] = Some(Ranged { range: 6 });
    world.area_effects[e] = Some(AreaOfEffect { radius: 3 });
    world.confusions[e] = Some(Confusion { turns: 4 });
     proof {
        assert forall|j: int|
            0 <= j < old(world).num_entities() implies World::same_entity(
            *old(world),
            *world,
            j,
        ) by {
            assert(World::same_entity(*old(world), w_mid, j));
            assert(World::same_entity(w_mid, *world, j));
        }
    }
    e
}

/// Spawns one of the four item kinds at `(x, y)`, by a die roll.
pub fn random_item(world: &mut World, rng: &mut Rng, x: i32, y: i32)
    requires
        old(world).wf(),
        old(rng).wf(),
        old(world).num_entities() < usize::MAX,
    ensures
        final(world).wf(),
        final(rng).wf(),
        final(world).num_entities() == old(world).num_entities() + 1,
        spawned_health_potion(*final(world), old(world).num_entities(), x, y)
            || spawned_magic_missile_scroll(*final(world), old(world).num_entities(), x, y)
            || spawned_fireball_scroll(*final(world), old(world).num_entities(), x, y)
            || spawned_confusion_scroll(*final(world), old(world).num_entities(), x, y),
        forall|j: int|
            0 <= j < old(world).num_entities() ==> World::same_entity(*old(world), *final(world), j),
{
    let roll = rng.roll_dice(1, 4);
    if roll == 1 {
        health_potion(world, x, y);
    } else if roll == 2 {
        fireball_scroll(world, x, y);
    } else if roll == 3 {
        confusion_scroll(world, x, y);
    } else {
        magic_missile_scroll(world, x, y);
    }
}

/// Populates one room: up to [`MAX_MONSTERS_PER_ROOM`] monsters and
/// [`MAX_ITEMS_PER_ROOM`] items on distinct interior tiles of the room.
/// Pre-existing entities are untouched; every spawned entity stands on a
/// tile strictly inside the room rectangle.
pub fn spawn_room(world: &mut World, rng: &mut Rng, room: &Rect)
    requires
        old(world).wf(),
        old(rng).wf(),
        old(world).num_entities() + 8 < usize::MAX,
        0 <= room.x1,
        room.x1 + 4 <= room.x2,
        room.x2 < i32::MAX,
        0 <= room.y1,
        room.y1 + 4 <= room.y2,
        room.y2 < i32::MAX,
    ensures
        final(world).wf(),
        final(rng).wf(),
        old(world).num_entities() <= final(world).num_entities() <= old(world).num_entities() + 4,
        forall|j: int|
            0 <= j < old(world).num_entities() ==> World::same_entity(*old(world), *final(world), j),
        forall|e: int|
            old(world).num_entities() <= e < final(world).num_entities() ==> #[trigger] dweller_in_room(*final(world), *room, e),
        // the spawned entities stand on pairwise distinct tiles
        forall|e1: int, e2: int|
            #![trigger final(world).positions@[e1], final(world).positions@[e2]]
            old(world).num_entities() <= e1 < final(world).num_entities() && old(world).num_entities() <= e2 < final(world).num_entities() && e1 != e2 ==> final(world).positions@[e1] != final(world).positions@[e2],
{
    let num_monsters = rng.roll_dice(1, MAX_MONSTERS_PER_ROOM + 2) - 3;
    let num_items = rng.roll_dice(1, MAX_ITEMS_PER_ROOM + 2) - 3;
    let mut spawn_points: Vec<Position> = Vec::new();
    let mut monster_count: i32 = 0;
    while monster_count < num_monsters
        invariant
            world.wf(),
            rng.wf(),
            num_monsters <= 3,
            old(world).num_entities() <= world.num_entities(),
            old(world).num_entities() + 8 < usize::MAX,
            world.num_entities() <= old(world).num_entities() + monster_count,
            0 <= monster_count <= 3,
            0 <= room.x1,
            room.x1 + 4 <= room.x2,
            room.x2 < i32::MAX,
            0 <= room.y1,
            room.y1 + 4 <= room.y2,
            room.y2 < i32::MAX,
            forall|j: int|
                0 <= j < old(world).num_entities() ==> World::same_entity(
                    *old(world),
                    *world,
                    j,
                ),
            forall|e: int|
                old(world).num_entities() <= e < world.num_entities() ==> #[trigger] dweller_in_room(*world, *room, e),
            forall|e: int|
                old(world).num_entities() <= e < world.num_entities() ==> (#[trigger] world.positions@[e]) is Some && spawn_points@.contains(world.positions@[e]->Some_0),
            forall|e1: int, e2: int|
                #![trigger world.positions@[e1], world.positions@[e2]]
                old(world).num_entities() <= e1 < world.num_entities() && old(world).num_entities() <= e2 < world.num_entities() && e1 != e2 ==> world.positions@[e1]
                    != world.positions@[e2],
        decreases num_monsters - monster_count,
    {
        let ghost sp_before = spawn_points@;
        let p = pick_point(rng, room, &mut spawn_points);
        let ghost w_prev = *world;
        match p {
            Some(pos) => {
                random_monster(world, rng, pos.x, pos.y);
                proof {
                    lemma_dwellers_persist(w_prev, *world, old(world).num_entities(), *room);
                    assert forall|j: int|
                        0 <= j < old(world).num_entities() implies World::same_entity(
                        *old(world),
                        *world,
                        j,
                    ) by {
                        assert(World::same_entity(*old(world), w_prev, j));
                        assert(World::same_entity(w_prev, *world, j));
                    }
                    assert(spawned_room_dweller(
                        *world,
                        w_prev.num_entities(),
                        pos.x,
                        pos.y,
                    ));
                    assert(dweller_in_room(*world, *room, w_prev.num_entities()));
                    assert(world.positions@[w_prev.num_entities() as int] == Some(pos)) by {
                        assert(Position { x: pos.x, y: pos.y } == pos);
                    }
                    assert(spawn_points@.contains(pos)) by {
                        assert(spawn_points@[sp_before.len() as int] == pos);
                    }
                    assert forall|e: int|
                        old(world).num_entities() <= e < w_prev.num_entities() implies (
                    #[trigger] world.positions@[e]) is Some && spawn_points@.contains(
                        world.positions@[e]->Some_0,
                    ) by {
                        assert(World::same_entity(w_prev, *world, e));
                        assert(sp_before.contains(w_prev.positions@[e]->Some_0));
                        let j = choose|j: int|
                            0 <= j < sp_before.len() && sp_before[j] == w_prev.positions@[e]->Some_0;
                        assert(spawn_points@[j] == w_prev.positions@[e]->Some_0);
                    }
                    assert forall|e1: int, e2: int|
                        #![trigger world.positions@[e1], world.positions@[e2]]
                        old(world).num_entities() <= e1 < world.num_entities() && old(world).num_entities() <= e2 < world.num_entities() && e1 != e2 implies world.positions@[e1]
                        != world.positions@[e2] by {
                        let fresh = w_prev.num_entities() as int;
                        if e1 < fresh && e2 < fresh {
                            assert(World::same_entity(w_prev, *world, e1));
                            assert(World::same_entity(w_prev, *world, e2));
                            assert(w_prev.positions@[e1] != w_prev.positions@[e2]);
                        } else if e1 == fresh {
                            assert(World::same_entity(w_prev, *world, e2));
                            assert(w_prev.positions@[e2] is Some);
                            assert(sp_before.contains(w_prev.positions@[e2]->Some_0));
                            assert(!sp_before.contains(pos));
                            assert(world.positions@[e1] == Some(pos));
                        } else {
                            assert(World::same_entity(w_prev, *world, e1));
                            assert(w_prev.positions@[e1] is Some);
                            assert(sp_before.contains(w_prev.positions@[e1]->Some_0));
                            assert(!sp_before.contains(pos));
                            assert(world.positions@[e2] == Some(pos));
                        }
                    }
                }
            },
            None => {},
        }
        monster_count += 1;
    }
    let mut item_count: i32 = 0;
    while item_count < num_items
        invariant
            world.wf(),
            rng.wf(),
            num_items <= 1,
            old(world).num_entities() <= world.num_entities(),
            old(world).num_entities() + 8 < usize::MAX,
            world.num_entities() <= old(world).num_entities() + 3 + item_count,
            0 <= item_count <= 1,
            0 <= room.x1,
            room.x1 + 4 <= room.x2,
            room.x2 < i32::MAX,
            0 <= room.y1,
            room.y1 + 4 <= room.y2,
            room.y2 < i32::MAX,
            forall|j: int|
                0 <= j < old(world).num_entities() ==> World::same_entity(
                    *old(world),
                    *world,
                    j,
                ),
            forall|e: int|
                old(world).num_entities() <= e < world.num_entities() ==> #[trigger] dweller_in_room(*world, *room, e),
            forall|e: int|
                old(world).num_entities() <= e < world.num_entities() ==> (#[trigger] world.positions@[e]) is Some && spawn_points@.contains(world.positions@[e]->Some_0),
            forall|e1: int, e2: int|
                #![trigger world.positions@[e1], world.positions@[e2]]
                old(world).num_entities() <= e1 < world.num_entities() && old(world).num_entities() <= e2 < world.num_entities() && e1 != e2 ==> world.positions@[e1]
                    != world.positions@[e2],
        decreases num_items - item_count,
    {
        let ghost sp_before = spawn_points@;
        let p = pick_point(rng, room, &mut spawn_points);
        let ghost w_prev = *world;
        match p {
            Some(pos) => {
                random_item(world, rng, pos.x, pos.y);
                proof {
                    lemma_dwellers_persist(w_prev, *world, old(world).num_entities(), *room);
                    assert forall|j: int|
                        0 <= j < old(world).num_entities() implies World::same_entity(
                        *old(world),
                        *world,
                        j,
                    ) by {
                        assert(World::same_entity(*old(world), w_prev, j));
                        assert(World::same_entity(w_prev, *world, j));
                    }
                    assert(spawned_room_dweller(
                        *world,
                        w_prev.num_entities(),
                        pos.x,
                        pos.y,
                    ));
                    assert(dweller_in_room(*world, *room, w_prev.num_entities()));
                    assert(world.positions@[w_prev.num_entities() as int] == Some(pos)) by {
                        assert(Position { x: pos.x, y: pos.y } == pos);
                    }
                    assert(spawn_points@.contains(pos)) by {
                        assert(spawn_points@[sp_before.len() as int] == pos);
                    }
                    assert forall|e: int|
                        old(world).num_entities() <= e < w_prev.num_entities() implies (
                    #[trigger] world.positions@[e]) is Some && spawn_points@.contains(
                        world.positions@[e]->Some_0,
                    ) by {
                        assert(World::same_entity(w_prev, *world, e));
                        assert(sp_before.contains(w_prev.positions@[e]->Some_0));
                        let j = choose|j: int|
                            0 <= j < sp_before.len() && sp_before[j] == w_prev.positions@[e]->Some_0;
                        assert(spawn_points@[j] == w_prev.positions@[e]->Some_0);
                    }
                    assert forall|e1: int, e2: int|
                        #![trigger world.positions@[e1], world.positions@[e2]]
                        old(world).num_entities() <= e1 < world.num_entities() && old(world).num_entities() <= e2 < world.num_entities() && e1 != e2 implies world.positions@[e1]
                        != world.positions@[e2] by {
                        let fresh = w_prev.num_entities() as int;
                        if e1 < fresh && e2 < fresh {
                            assert(World::same_entity(w_prev, *world, e1));
                            assert(World::same_entity(w_prev, *world, e2));
                            assert(w_prev.positions@[e1] != w_prev.positions@[e2]);
                        } else if e1 == fresh {
                            assert(World::same_entity(w_prev, *world, e2));
                            assert(w_prev.positions@[e2] is Some);
                            assert(sp_before.contains(w_prev.positions@[e2]->Some_0));
                            assert(!sp_before.contains(pos));
                            assert(world.positions@[e1] == Some(pos));
                        } else {
                            assert(World::same_entity(w_prev, *world, e1));
                            assert(w_prev.positions@[e1] is Some);
                            assert(sp_before.contains(w_prev.positions@[e1]->Some_0));
                            assert(!sp_before.contains(pos));
                            assert(world.positions@[e2] == Some(pos));
                        }
                    }
                }
            },
            None => {},
        }
        item_count += 1;
    }
}

/// Once spawned, a room dweller stays exactly as it was as long as its
/// slots are untouched.
proof fn lemma_dwellers_persist(w1: World, w2: World, lo: int, room: Rect)
    requires
        w1.wf(),
        w2.wf(),
        0 <= lo,
        lo <= w1.num_entities() <= w2.num_entities(),
        forall|j: int| 0 <= j < w1.num_entities() ==> World::same_entity(w1, w2, j),
        forall|e: int|
            lo <= e < w1.num_entities() ==> #[trigger] dweller_in_room(w1, room, e),
    ensures
        forall|e: int|
            lo <= e < w1.num_entities() ==> #[trigger] dweller_in_room(w2, room, e),
{
    assert forall|e: int| lo <= e < w1.num_entities() implies #[trigger] dweller_in_room(w2, room, e) by {
        assert(dweller_in_room(w1, room, e));
        let (x, y) = choose|x: i32, y: i32|
            room.interior_contains(x as int, y as int) && #[trigger] spawned_room_dweller(
                w1,
                e,
                x,
                y,
            );
        assert(World::same_entity(w1, w2, e));
        assert(spawned_room_dweller(w2, e, x, y));
    }
}

/// Draws a fresh interior tile of the room: up to a few attempts, a tile
/// not yet in `taken`; pushes and returns it, or returns nothing when
/// every attempt collided.
fn pick_point(rng: &mut Rng, room: &Rect, taken: &mut Vec<Position>) -> (r: Option<Position>)
    requires
        old(rng).wf(),
        0 <= room.x1,
        room.x1 + 4 <= room.x2,
        room.x2 < i32::MAX,
        0 <= room.y1,
        room.y1 + 4 <= room.y2,
        room.y2 < i32::MAX,
    ensures
        final(rng).wf(),
        r is Some ==> room.interior_contains(r->Some_0.x as int, r->Some_0.y as int),
        r matches Some(p) ==> !old(taken)@.contains(p) && final(taken)@ == old(taken)@.push(p),
        r is None ==> final(taken)@ == old(taken)@,
{
    let mut attempts: i32 = 0;
    while attempts < 32
        invariant
            rng.wf(),
            0 <= room.x1,
            room.x1 + 4 <= room.x2,
            room.x2 < i32::MAX,
            0 <= room.y1,
            room.y1 + 4 <= room.y2,
            room.y2 < i32::MAX,
            taken@ == old(taken)@,
        decreases 32 - attempts,
    {
        let x = room.x1 + rng.roll_dice(1, room.x2 - room.x1);
        let y = room.y1 + rng.roll_dice(1, room.y2 - room.y1);
        let p = Position { x, y };
        let mut clash = false;
        let mut i: usize = 0;
        while i < taken.len()
            invariant
                i <= taken@.len(),
                clash || forall|j: int| 0 <= j < i ==> taken@[j] != p,
            decreases taken@.len() - i,
        {
            if taken[i] == p {
                clash = true;
            }
            i += 1;
        }
        if !clash {
            assert(!taken@.contains(p));
            taken.push(p);
            return Some(p);
        }
        attempts += 1;
    }
    None
}

} // verus!
