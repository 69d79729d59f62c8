//! Solar shadow analysis over elevation rasters.
//!
//! From a terrain raster, a surface raster and an area of interest, the
//! library finds for every cell of the area and every sampled daylight
//! instant how much of the cell lies in shadow, and folds that history into
//! summaries per cell, per month and per season.
//!
//! All quantities are integers, so that every result is exact: heights in
//! millimetres, angles in microdegrees, instants in microseconds since
//! 1970-01-01 UTC, shadow values in sixty-fourths, shadow durations in
//! ticks of 1/64 second, direction components in millionths.  The
//! trigonometry of the solar model is the caller's; its results enter as
//! integers in these units.
//!
//! The stages, leaves first:
//! - [`sun_position`]: Julian day, rounding and caching of angles, solar
//!   noon, sunrise and sunset on an elevation curve;
//! - [`timestamps`]: the daylight instants to sample;
//! - [`raster_io`]: the shadow buffer and the clip window around the area;
//! - [`selector`]: the cells worth a ray at one position of the sun;
//! - [`kernel`]: the ray march over the surface;
//! - [`refinement`]: resampling of shadow boundaries;
//! - [`shadow_map`]: the shadow map of one instant;
//! - [`statistics`] and [`seasonal`]: the summaries;
//! - [`shadow_engine`]: a run from the first instant to the results;
//! - [`export`] and [`labels`]: the band layout of a results raster.

pub mod calendar;
pub mod export;
pub mod grid;
pub mod kernel;
pub mod labels;
pub mod polygon;
pub mod raster_io;
pub mod refinement;
pub mod seasonal;
pub mod selector;
pub mod shadow_engine;
pub mod shadow_map;
pub mod statistics;
pub mod sun_position;
pub mod timestamps;
pub mod types;
