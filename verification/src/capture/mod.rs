//! Where frames come from: region checks, monitor geometry, pacing and cropping
//! for the capture backends.

pub mod gdi;
pub mod pixels;
pub mod wgcap;
