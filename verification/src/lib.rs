//! Clearing one nested field of a persisted JSON configuration document.
//!
//! The library models the document as a tree of its own ([`json::Json`]),
//! locates the field `gui_tile_state` inside the top-level object `das`,
//! and resets it to the empty string, leaving every other field untouched.
//! Reading the file, parsing its text and writing it back are the callers'
//! concern; the library works on the in-memory document alone.

pub mod errors;
pub mod json;
pub mod reset;
