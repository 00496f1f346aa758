//! Colour format conversion: RGB formats to YUV for video encoding.
//!
//! A compute shader converts the samples. What it is told, how much memory it
//! writes and how its output is copied into an encoder's input image is decided
//! here.

pub mod color;
pub mod config;
pub mod format;
pub mod plan;

pub use color::{ColorRange, ColorSpec, Nits};
pub use config::{ColorConverter, ColorConverterConfig};
pub use format::{InputFormat, OutputFormat};
