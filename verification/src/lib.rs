//! A line-oriented text editing engine: anchor search over line sequences,
//! contiguous block relocation, targeted substitutions, and an in-memory
//! document model that mirrors its backing store at every write point.

pub mod anchor;
pub mod block;
pub mod dir;
pub mod errors;
pub mod file;
pub mod pattern;
pub mod stabilize;
pub mod text;
