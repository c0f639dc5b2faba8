//! A verified driver core for a double-buffered test-pattern display.
//!
//! The library holds the logic of the system: the raster primitives and
//! pattern renderers, the double-buffer swap state machine, the scripted
//! pattern sequencer, and the per-iteration decisions of the main loop.
//! Device discovery, buffer mapping and event polling are left to the
//! binary around it, which hands the library plain values.

pub mod card;
pub mod controller;
pub mod input;
pub mod patterns;
pub mod raster;
pub mod sequencer;
pub mod surface;
