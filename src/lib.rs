//! Turns a picture into a low-resolution, colour-reduced pattern chart.
//!
//! The verified core works on plain pixel buffers: it resamples an image into
//! a mosaic of uniform cells, maps every pixel to its nearest palette colour,
//! and draws a grid that marks the cell boundaries.

pub mod err;
pub mod colour;
pub mod buffer;
pub mod quantize;
pub mod grid;
pub mod resample;
pub mod palette;
pub mod pipeline;
pub mod project;
pub mod command;
