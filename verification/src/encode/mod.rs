//! From captured pixels to compressed video.

pub mod i420;
pub mod sw;
