//! From compressed samples to a container.

pub mod mp4;
