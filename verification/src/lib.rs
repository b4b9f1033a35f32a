//! Maplewood: the entity-component store, map geometry, script metadata and
//! small state machines of a tile-based 2D adventure game engine.

pub mod math;
pub mod slots;
pub mod text;
pub mod ecs;
pub mod components;
pub mod world;
pub mod story;
pub mod script;
pub mod nine_slice;
pub mod loader;
pub mod input;
pub mod dev_ui;
pub mod ui;
pub mod logger;
