//! Turns a raster image into a vector drawing of filled circles: the image
//! is cut into a grid of cells, each cell is averaged to one color, and each
//! cell becomes one circle of that color.

pub mod color;
pub mod config;
pub mod error;
pub mod grid;
pub mod pipeline;
pub mod plane;
pub mod svg;
pub mod text;
