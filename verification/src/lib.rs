//! Text-selection core for a scrollable, line-wrapped terminal pane.
//!
//! The crate models a selection over a character grid addressed by stable
//! (scrollback-relative) row indices: the range geometry, the pointer-driven
//! begin/extend operations under four selection modes, the extraction of the
//! selected region into a flat string that rejoins soft-wrapped lines, and
//! the invalidation rule that clears a stale selection when the buffer
//! underneath it changes.

pub mod controller;
pub mod pane;
pub mod selection;
pub mod text;
