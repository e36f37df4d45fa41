//! A verified game-and-display core: a tick-driven climbing/sliding snake
//! simulation on a 6x7 cell grid, and a compositor that turns the frame it
//! describes into the exact byte stream a row-addressed, bit-packed
//! monochrome panel expects.
//!
//! The platform around it (timers, pins, the serial bus) stays outside; the
//! library takes events and hands back plain values and bytes.

pub mod compositor;
pub mod display;
pub mod engine;
pub mod sprites;

pub use engine::{Block, Model, Msg};
