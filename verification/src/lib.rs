//! Star-field analysis for smartphone astrophotography: the integer core of
//! star detection, satellite-streak candidate search, EXIF extraction, image
//! loading and the small state machines of the user interfaces.
use vstd::prelude::*;

pub mod exif_metadata;
pub mod image_loader;
pub mod raster;
pub mod satellites;
pub mod sky;
pub mod star_blobs;
pub mod text;
pub mod tui;
pub mod web;

verus! {

} // verus!
