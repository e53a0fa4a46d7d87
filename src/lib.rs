//! A declarative-state reconciliation engine.
//!
//! A desired-state store holds the objects a user declared; an objects
//! manager holds the objects believed to exist. The planner diffs a snapshot
//! of each, emits create, modify and delete operations, and applies them to
//! the objects manager so that the actual state converges to the desired one.
pub mod object;
pub mod objects_manager;
pub mod state;
pub mod actions;
pub mod laws;

mod table;

pub use object::{Object, ObjectID};
