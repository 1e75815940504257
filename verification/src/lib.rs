pub mod codec;
pub mod color;
pub mod distance;
pub mod db;
pub mod errors;
pub mod grid;
pub mod imaging;
pub mod matcher;
pub mod raster;
