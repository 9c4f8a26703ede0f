//! Visual detection and timed sampling for a fixed-layout arcade game.

pub mod classifier;
pub mod error;
pub mod frame;
pub mod geometry;
pub mod locator;
pub mod pacing;
pub mod planner;
pub mod tracker;
