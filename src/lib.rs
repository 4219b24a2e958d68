//! Verified core of a small Monte-Carlo path tracer.
//!
//! Geometry and shading work on floating-point values and are carried out by
//! the caller; this crate holds the parts whose rules are discrete: the scene
//! container and its nearest-hit scan, the bounce budget of a light path, the
//! render settings, the raster that collects the final pixels, and the choice
//! of material for generated scenes.

pub mod world;
pub mod raster;
pub mod settings;
pub mod path;
pub mod material;
