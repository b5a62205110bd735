//! Rendering of a single styled, width-aware text line into a bounded
//! terminal region.
//!
//! The library resolves horizontal placement for a line (left, center or
//! right alignment within a window), wraps the line into width-bounded rows,
//! and produces the exact sequence of draw commands (cursor moves and styled
//! prints) needed to put it on screen.  Writing those commands to a terminal
//! backend is left to the caller.

pub mod draw;
pub mod layout;
pub mod style;
pub mod text;
