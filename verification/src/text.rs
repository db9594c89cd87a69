//! Parsers for the three line-oriented text configuration formats a skin
//! carries: the visualization color table, the playlist-editor settings,
//! and the window region polygons.

pub mod pledit;
pub mod region;
pub mod viscolor;
