//! A deterministic finite-state machine held as a dense transition table.
//!
//! States and events are small integers. A table of `STATE_COUNT` states and
//! `EVENT_COUNT` events answers, for every state and every event, which state
//! follows. A fresh table sends every state to itself; transitions overwrite
//! single cells, and the last one written to a cell wins.

pub mod lemmas;
pub mod model;
pub mod render;
pub mod table;
pub mod transition;

pub use table::FSM;
pub use transition::Transition;
