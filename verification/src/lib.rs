//! Renders raster frames and audio samples as grids of coloured glyphs.
//!
//! The crate holds the resampling and quantisation engine: the dense matrix
//! the engine works on, the brightness model, the glyph quantiser, the block
//! resampler in a sequential and a data-parallel form, the sequence
//! subsampler and the waveform renderer. Decoding of files and everything
//! that touches the terminal, the file system or the network lies outside.

pub mod algo;
pub mod audio;
pub mod block;
pub mod brightness;
pub mod chars;
pub mod clock;
pub mod color;
pub mod colored_char;
pub mod dimensions;
pub mod error;
pub mod flat_matrix;
pub mod frames;
pub mod image;
pub mod parallel;
pub mod render;
pub mod rounding;
pub mod subsample;
pub mod text;
pub mod video;

pub use clock::timestamp;
pub use error::Error;
