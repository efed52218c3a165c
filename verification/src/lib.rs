//! Logistics core of a real-time strategy game.
//!
//! Buildings are linked by player-drawn connections ("ways"), and production
//! buildings continuously push mobile units along those connections.  The
//! crate owns the building connection graph, the interactive way-placement
//! state machine, the derived highlight state, the round-robin production
//! scheduler and the unit transit model; rendering, asset loading and physics
//! stay outside and talk to this core through plain event values.

pub mod geometry;
pub mod graph;
pub mod highlight;
pub mod input;
pub mod pipeline;
pub mod placement;
pub mod scheduler;
pub mod transit;
