//! Motion-recording pipeline: grayscale frames, luminance-difference motion
//! detection, a fold-style scene controller that decides which frames to
//! persist, and a persistence-worker state machine that turns persistence
//! events into ordered encode/write/upload actions.

pub mod controller;
pub mod detector;
pub mod frame;
pub mod names;
pub mod worker;

pub use frame::Frame;
