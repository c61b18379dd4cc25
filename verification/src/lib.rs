//! Correspondence search over a light field: a set of images of one scene,
//! each taken from a known camera position.
//!
//! For a pixel of a reference view the library walks, in every other view, the
//! line that the two camera positions determine, and reports the place along it
//! whose surrounding patch is most similar to the patch round the reference
//! pixel.
//!
//! All geometry is exact: camera positions are integers in a fixed-point unit
//! of the caller's choice, and points of the image plane are rationals.

pub mod config;
pub mod correspondence;
pub mod error;
pub mod extract;
pub mod geometry;
pub mod patch;
pub mod raster;
pub mod rounding;
pub mod search;
pub mod view;
