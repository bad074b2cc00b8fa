//! Core logic of a tmux session launcher: indexing a directory tree into a
//! catalog of selectable project entries, merging live multiplexer sessions
//! into the selectable list, parsing the picker's selection, and compressing
//! session labels into a fixed display budget.
//!
//! All text is handled as byte strings (`Vec<u8>` / `&[u8]`), matching the
//! byte-oriented length and slicing semantics of the launcher's display
//! budget. The surrounding binary converts to and from `String` at its edges.

pub mod bytes;
pub mod catalog;
pub mod label;
pub mod select;
pub mod sessions;

use vstd::prelude::*;

verus! {

/// Display width available in the multiplexer's status bar, in bytes.
pub const STATUS_WIDTH: usize = 25;

} // verus!
