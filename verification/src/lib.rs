//! A small 2D toolkit built around a software triangle rasterizer.
//!
//! The rasterizer turns a triangle of three vertices (screen position,
//! texture coordinate, colour) into painted pixels of a frame. It works on
//! 16.16 fixed-point coordinates, so that edge functions are evaluated
//! exactly and the top-left tie-break gives every pixel on an edge that two
//! triangles share to exactly one of them.
//!
//! - [`fixed`]: fixed-point scalars and vectors.
//! - [`setup`]: edge function, signed area, pixel range, top-left rule.
//! - [`raster`]: coverage, barycentric weights and the three shading
//!   strategies (one colour, vertex colours, texture).
//! - [`texture`]: textures with nearest-neighbour sampling.
//! - [`theorems`]: what holds of the rasterizer for every triangle.
//! - [`frame`], [`pix`], [`draw`]: the pixel buffer and simple drawing on it.
//! - [`imgfmt`], [`pix_io`], [`frame_io`]: PPM and BMP encoders.
//! - [`arena`]: a generational arena.
//! - [`rand`]: seeded pseudo-random generators.
//! - [`time`], [`fixed_loop`]: spans of time, clocks and the fixed-timestep
//!   loop.
//! - [`platform`], [`term`]: the backend interface and the byte streams of
//!   the terminal backend.
pub mod arena;
pub mod arith;
pub mod draw;
pub mod fixed;
pub mod fixed_loop;
pub mod frame;
pub mod frame_io;
pub mod imgfmt;
pub mod pix;
pub mod pix_io;
pub mod platform;
pub mod rand;
pub mod raster;
pub mod setup;
pub mod term;
pub mod texture;
pub mod theorems;
pub mod time;
