//! Planning and bookkeeping for rendering a map mosaic with track overlays.
//!
//! Coordinates are fixed-point integers, tiles follow the slippy-map scheme,
//! and every function carries a contract that states its result.

pub mod bbox;
pub mod cluster;
pub mod decimal;
pub mod gpx;
pub mod llpoint;
pub mod mosaic;
pub mod overlay;
pub mod plan;
pub mod tile;
pub mod tiledl;
