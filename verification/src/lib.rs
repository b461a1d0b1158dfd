//! Rendering of 3D geometry into a grid of coloured text cells.
//!
//! The crate holds the renderer's logic, every function of it with a
//! contract. Verus proves the contracts, but for four that it takes on
//! trust: those of the two functions in [`printing::styling`] that render a
//! reset and a style with `anstyle`, and those given there to `String::push`
//! and `String::push_str` of the standard library.
//!
//! * [`printing`]: the character frame buffer, the lines and triangles that
//!   are shaded into it, and its text for a terminal;
//! * [`rasterizing`]: the camera with its derived matrices, the pipeline from
//!   a triangle in space to cells of a frame, and the compositing by depth;
//! * [`behaviour`]: the decisions of a frame loop that runs at a fixed rate.
//!
//! The crate computes with integers. The arithmetic of space is handed to it
//! as an implementation of [`optics::Optics`]; reading the clock, sleeping and
//! writing to the terminal are left to the loop that drives it.

pub mod behaviour;
pub mod geometry;
pub mod optics;
pub mod prelude;
pub mod printing;
pub mod rasterizing;
pub mod resources;
