//! Level engine for a Sokoban-style grid puzzle: positions and moves, the
//! level state with its push rule, the ASCII level grammar and the loader of
//! multi-level collections.

pub mod collection;
pub mod error;
pub mod game;
pub mod shadow;
