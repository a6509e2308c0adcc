//! Dimension-input validation and grid generation for a voxel map editor.
//!
//! Three numeric fields (width, length, height) are entered through separate
//! UI widgets. The library tracks each field's last submitted value, and once
//! all three are valid (at least 1) it builds the ordered sequence of tile
//! positions for the grid and emits a single generation request.
//!
//! The presentation layer (widget creation, rendering, input events) and the
//! render layer (spawning one object per tile) live outside this crate; they
//! talk to it through plain values: widget identities, submitted text, and
//! the generated tile list.

pub mod grid;
pub mod lifecycle;
pub mod parse;
pub mod registry;
pub mod router;
