//! Deterministic upscaling of resource-pack textures: pixel replication,
//! per-channel median smoothing and a circular mask that rounds block corners.

pub mod colour;
pub mod raster;
pub mod smooth;
pub mod mask;
pub mod pipeline;
pub mod resources;
