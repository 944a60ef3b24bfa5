//! Jump-flood outline post-processing: edge detection, nearest-seed
//! propagation and distance-based compositing over integer images.

pub mod image;
pub mod flood;
pub mod settings;
pub mod edge;
pub mod composite;
pub mod pipeline;
pub mod uniform;
