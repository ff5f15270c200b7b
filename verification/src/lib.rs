//! A terminal pixel-painting engine: a fixed-size grid of RGBA cells that a
//! pointer paints or flood-fills, overlaid by a toolbar and a color palette
//! that intercept pointer input before it reaches the grid.
//!
//! The crate covers the painting engine and the overlay hit-testing: the
//! grid data model, the tool state, the flood fill with its termination and
//! exact-component guarantee, the pointer-to-cell coordinate mapping, and
//! the dialog bounds model. Reading input events and drawing to a physical
//! terminal are the surrounding application's job.

pub mod canvas;
pub mod dialog;
pub mod dispatch;
pub mod grid;
pub mod laws;
pub mod pixel;
