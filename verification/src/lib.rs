//! Replays a digital-circuit simulation trace (a value change dump) and, at
//! every rising edge of the designated clock, reconstructs a snapshot of a
//! processor's register-renaming tables, physical register file, reorder
//! buffer and issue queue.

pub mod errors;
pub mod logic;
pub mod reader;
pub mod registry;
pub mod step;
pub mod stream;
