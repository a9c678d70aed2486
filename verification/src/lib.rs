//! Debug-style formatting for lists of values, collapsing runs of adjacent
//! items (for example successive integers) into compact `first-last` ranges.
//!
//! A list such as `[42, 100, 101, 102, 103, 104, 20, 31, 32, 33, 34]` is
//! rendered as `42, 100-104, 20, 31-34`: more compact, and easier to scan for
//! patterns.  Adjacency is decided either by the [`IsAdjacent`] trait, which
//! this crate implements for the fixed-width integer types and for `char`, or
//! by a caller-supplied predicate.

pub mod adjacent;
pub mod render;
pub mod text;

pub use adjacent::IsAdjacent;
pub use render::DebugAdjacent;
pub use render::DebugAdjacentBy;
pub use render::debug_adjacent;
pub use render::debug_adjacent_by;
pub use text::DebugText;
