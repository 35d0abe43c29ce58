//! Reactive state-machine units ("gadgets"), their effect pipeline, and the
//! registry that serves them over a textual line protocol.
pub mod effect;
pub mod text;
pub mod gadget;
pub mod cells;
pub mod extension;
pub mod engine;
pub mod server;
