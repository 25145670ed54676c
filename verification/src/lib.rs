//! PLATO runtime kernel — the spatial spreadsheet engine.
//!
//! Rooms are cells of a tensor grid, batons carry an agent's state from
//! room to room, and the bullets of a room's Markdown specification are
//! assertions checked against its output.  Line deltas and three-way
//! merges keep the state of rooms in sync.
pub mod text;
pub mod text_map;
pub mod assertions;
pub mod tutor;
pub mod merge;
pub mod delta;
pub mod room;
pub mod baton;
pub mod grid;
pub mod wire;

pub use crate::assertions::{check_assertion, extract_assertions, validate_payload, AssertionResult};
pub use crate::baton::Baton;
pub use crate::grid::{DirEntry, GridBridge};
pub use crate::room::{
    RoomContract, RoomDepth, RoomIdentity, RoomTopology, RuntimeAssets, TraversalRecord,
};
pub use crate::text_map::TextMap;
pub use crate::tutor::{TutorCycleResult, TutorLoop};
