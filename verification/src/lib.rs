//! Latency probing for live video pipelines.
//!
//! A probe source stamps every frame it emits with a machine-readable
//! rendering of the wall-clock time at which the frame was made, and paces
//! its frames against a pipeline clock.  A probe sink reads the stamp back
//! and reports how long the frame was under way.

use vstd::prelude::*;

pub mod analyzer;
pub mod codec;
pub mod format;
pub mod pacer;
pub mod sink;
pub mod source;
pub mod text;
pub mod timeline;
pub mod tools;

verus! {

/// Smallest accepted frame side, in pixels.
pub const MINIMUM_SIZE: u32 = 100;

/// Lowest accepted frame rate, in frames per second.
pub const MINIMUM_FPS: i32 = 10;

/// Highest accepted frame rate, in frames per second.
pub const MAXIMUM_FPS: i32 = 240;

} // verus!
