//! Locating a known anchor inside screen captures, cropping fixed-geometry
//! pages, slicing them into card grids, filtering blank cards by a
//! mean-squared-error score, recoloring card backgrounds by category, and
//! tiling the survivors into a single mosaic image.

pub mod color;
pub mod crop;
pub mod gray;
pub mod locate;
pub mod raster;
pub mod stitch;
pub mod utils;
