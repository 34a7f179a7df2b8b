//! A raster canvas core: layers, a texture pool with a memory budget,
//! stroke rasterisation, compositing and change detection between frames.
//!
//! Every fraction (opacity, pressure, brush size, colour) is a fixed-point
//! number in units of 1/65536, and every pixel value is decided by exact
//! integer arithmetic.

pub mod error;
pub mod ids;
pub mod commands;
pub mod types;
pub mod texture;
pub mod renderer;
pub mod pool;
pub mod layer;
pub mod canvas_state;
pub mod stroke;
pub mod brush;
pub mod compositor;
pub mod engine;
pub mod buffer;
pub mod binary;
pub mod diff_handlers;
pub mod api;
pub mod drawing;
