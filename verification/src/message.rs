//! What the user does in the finder, and what the finder answers to the rest of the program.

use vstd::prelude::*;

verus! {

/// What the user asked for.
#[derive(Debug, Clone, Copy, PartialEq, Eq)]
pub enum FuzzyEvent {
    MoveUp,
    MoveDown,
    MoveLeft,
    MoveRight,
    MoveFirst,
    MoveLast,
    Insert(char),
    Delete,
    Enter,
    /// The terminal now has this many columns and this many rows.
    Resize(u16, u16),
}

/// The finder ends, with this tab chosen.
#[derive(Debug, Clone, PartialEq, Eq)]
pub struct FuzzySelection(pub String);

/// The finder ends, with no tab chosen.
#[derive(Debug, Clone, PartialEq, Eq)]
pub struct FuzzyShutdown {}

} // verus!
