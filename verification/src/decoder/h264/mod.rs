//! H.264 decoding.

pub mod active;
pub mod coded;
pub mod dpb;
pub mod feed;
pub mod framing;
pub mod marking;
pub mod nal;
pub mod parser;
pub mod poc;
pub mod references;
pub mod sequence;
pub mod session;
pub mod staged;
pub mod stream;
pub mod syntax;
pub mod written;
