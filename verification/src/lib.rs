//! A turn-based dungeon simulation engine: procedurally generated grid maps,
//! field-of-view with fog-of-war, weighted grid pathfinding, monster AI, and a
//! melee-combat pipeline with accumulate-then-apply damage resolution, all
//! coordinated through a discrete turn-state machine.

pub mod components;
pub mod damage_system;
pub mod fov;
pub mod game;
pub mod game_log;
pub mod gui;
pub mod grid_map;
pub mod inventory_system;
pub mod item_collection_system;
pub mod map_indexing_system;
pub mod melee_combat_system;
pub mod monster_ai_system;
pub mod pathfinding;
pub mod player;
pub mod rect;
pub mod rng;
pub mod spawner;
pub mod visibility_system;
pub mod world;
