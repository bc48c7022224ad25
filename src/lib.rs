//! Window lifecycle synchronisation between an entity world and a native
//! event loop: the entity/handle registry, the per-frame lifecycle systems,
//! the exit conditions and the event-loop driver's decisions.

pub mod plugin;
pub mod registry;
pub mod runner;
pub mod systems;
