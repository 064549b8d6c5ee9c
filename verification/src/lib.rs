//! Detects a rapid back-and-forth "shake" gesture from a stream of pointer
//! motion samples and drives a three-state cursor-size controller.
//!
//! The crate holds the gesture core: a time-bounded event window, a shake
//! classifier over that window, and the cursor state machine fed by the
//! classifier's verdicts. Talking to a display server is left to the host
//! program, which implements [`backend::DisplayBackend`].

pub mod backend;
pub mod config;
pub mod detector;
pub mod math;
pub mod resources;
