//! Software rasterization for an overlay surface: a packed pixel buffer,
//! colours with coverage blending, exact integer geometry for strokes,
//! and the keyboard device state machine that routes key events.
pub mod color;
pub mod config;
pub mod geometry;
pub mod keyboard;
pub mod margin;
pub mod raster;
