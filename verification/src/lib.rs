//! Verified core of an audio spectrum visualizer.
//!
//! Samples are split per channel and per analysis window, spectra arrive as
//! fixed-point magnitudes, and every later stage (global normalization, the
//! playback clock, temporal smoothing, the four pixel projections and the box
//! downscale) works on integers with a proved contract.
pub mod analizer;
pub mod audio;
pub mod clock;
pub mod demux;
pub mod level;
pub mod live;
pub mod paint;
pub mod palette;
pub mod projection;
pub mod raster;
pub mod render;
pub mod smoothing;
pub mod visualizer;
