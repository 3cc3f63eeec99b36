//! Seed positions along the outline of the opaque part of an RGBA image:
//! the inside and edge-band masks, the seeding draws, the projection
//! candidates and the spatial grid of the relaxation pass.

pub mod grid;
pub mod outline;
pub mod project;
pub mod rng;
pub mod seed;
