//! Hardware video decoding and colour conversion: everything but the device.
//!
//! This library makes the decisions of a Vulkan Video decoder and of a compute
//! shader colour converter, and proves what it decides. It never touches a device:
//! it takes plain values in (bytes, capabilities, events) and gives plain values
//! out (pictures, plans, frames to show), which the crate under `app/` carries out.
//!
//! - [`decoder`] turns an H.264 Annex B stream into pictures in display order. It
//!   frames the input, parses parameter sets and slice headers, keeps the decoded
//!   picture buffer and its reference marking, plans sessions and submissions, and
//!   says which storage every frame lives in and when that storage is free again.
//! - [`converter`] plans the conversion of RGB images to YUV for an encoder: which
//!   colour conversions exist, what the shader is told, and where each plane goes.
//! - [`video`] holds what both share, and [`error`] what can be refused and why.
//!
//! # How the contracts are written
//!
//! Every type that holds state has a mathematical view, and every function says in
//! its `ensures` what it returns over those views. Syntax is stated by spec
//! functions that read a bit string ([`decoder::h264::syntax`]), the decoded
//! picture buffer by functions from one state to the next
//! ([`decoder::h264::dpb`]), and framing by where pictures start
//! ([`decoder::h264::framing`]). What holds across functions is a proof function
//! whose name begins with `law_`.
//!
//! Where a result has to fit in a machine integer, the function requires it, and a
//! function beside it whose name ends in `fit` or `fits` tests it.

pub mod converter;
pub mod decoder;
pub mod error;
pub mod text;
pub mod video;
