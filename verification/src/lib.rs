//! Core rules engine for quantum animal shogi: a 3x4-board shogi variant in
//! which each piece's identity is a set of still-possible kinds, narrowed by
//! observation and by piece-count accounting.
//!
//! The engine offers the state type, legal-move enumeration, the move
//! transition with its two constraint-collapse procedures, the terminal
//! predicates, the mirror-canonical 128-bit state encoding, and an exhaustive
//! reachable-state enumerator deduplicated by that encoding.
pub mod bits;
pub mod moves;
pub mod state;
pub mod actions;
pub mod collapse;
pub mod transition;
pub mod encode;
pub mod terminal;
pub mod laws;
pub mod search;
