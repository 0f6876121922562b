//! Develop pipeline: the integer geometry of RGB pixel buffers.

pub mod orientation;
pub mod resample;
pub mod preview;
