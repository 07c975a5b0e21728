//! Compiles a raster image into an ordered stream of paint instructions for a
//! drawing program driven by synthetic mouse and keyboard input: background
//! detection, palette quantisation with a bounded number of custom colours,
//! run-length line compression and instruction sequencing.

pub mod color;
pub mod palette;
pub mod cluster;
pub mod seqs;
pub mod quantize;
pub mod lines;
pub mod sequence;
pub mod frame;
pub mod laws;
pub mod actuate;
