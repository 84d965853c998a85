//! Structural reading of a QR symbol: loading a module grid, removing its data
//! mask, walking winding shapes over it to recover header fields, and planning
//! how the grid is drawn into a pixel buffer.

pub mod bits;
pub mod grid;
pub mod header;
pub mod mask;
pub mod outcome;
pub mod render;
mod trusted;
pub mod winding;
