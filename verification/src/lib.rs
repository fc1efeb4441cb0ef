//! Simulation core of a fixed-tick arcade shooter: an entity-component store
//! with generation-tagged handles, a deferred mutation queue drained once per
//! tick, and the five systems (spawning, enemy behavior, player control,
//! movement, collision) that advance the game state.

pub mod components;
pub mod registry;
pub mod rng;
pub mod world;
pub mod spawn;
pub mod invariants;
pub mod systems;
pub mod game;
