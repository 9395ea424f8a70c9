//! A retained-mode UI toolkit core.
//!
//! - [`screen_sys`]: the stack of screens, its navigation and its per-frame
//!   tick; [`stack`] holds the bookkeeping of the stack as a model, with the
//!   laws that navigation and ticks obey.
//! - [`ui`]: components, and the container that caches their geometry and
//!   finds the target of a click.
//! - [`render`]: vertices and models, the glyph cache, and the batches that a
//!   frame hands to the GPU.
//! - [`fixed`]: the fixed-point numbers in which all positions, sizes and
//!   colours are held. They are fractions of the viewport.
//! - [`text`]: helpers for the text that components show.

pub mod fixed;
pub mod render;
pub mod screen_sys;
pub mod stack;
pub mod text;
pub mod ui;
