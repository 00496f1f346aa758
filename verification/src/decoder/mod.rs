//! The video decoder.

pub mod bitreader;
pub mod common;
pub mod config;
pub mod display;
pub mod frames;
pub mod h264;
pub mod pipeline;
pub mod planes;
pub mod pool;
pub mod reorder;
pub mod written;

pub use config::{DecodeConfig, DecodeStatus, Framing, DEFAULT_OUTPUT_DEPTH};
