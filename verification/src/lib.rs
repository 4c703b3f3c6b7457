//! Bakes stacks of layered image-document groups into runtime level assets:
//! a composited background raster, a footprint-dilated collision raster, and
//! a packed area-classification raster.

pub mod area;
pub mod bake;
pub mod codec;
pub mod model;
pub mod compositor;
pub mod occupancy;
pub mod px;
pub mod raster;
