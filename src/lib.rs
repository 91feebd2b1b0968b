//! The entity-component-system core: a registry of recycled entity identifiers, a
//! store of component values keyed by entity and kind, a façade that keeps the two
//! consistent, an ordered scheduler of systems, and the draw ordering of sprites.

pub mod component_manager;
pub mod entity_manager;
pub mod kinds;
pub mod laws;
pub mod order;
pub mod renderer;
pub mod scheduler;
pub mod world;
