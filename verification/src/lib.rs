//! A verified core for a vector-to-pixel drawing editor for the Playdate:
//! the document model, undo history, editing operations, the 1-bit
//! rasteriser and the Playdate Lua exporter.
pub mod model;
pub mod text;
pub mod export;
pub mod raster;
pub mod history;
pub mod lua;
pub mod editor;
pub mod colors;
pub mod dither_density;
