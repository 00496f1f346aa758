//! How a decoder is configured, and what it reports.

use crate::error::{PixelForgeError, Unsupported};
use crate::video::Codec;
use vstd::prelude::*;

verus! {

/// How the bytes handed to a decoder are framed.
///
/// The decoder has to know where one coded frame ends and the next begins.
/// Which of these applies is a property of where the bytes come from, not of
/// the codec, so it cannot be detected.
#[derive(Clone, Copy, Debug, PartialEq, Eq, Structural)]
pub enum Framing {
    /// Every call carries whole coded frames: the end of the data is the end of
    /// a frame (the default).
    ///
    /// This is what a container or a transport gives you, where framing has
    /// already been done: an RTP access unit, an MP4 sample, a WebRTC frame.
    /// Nothing is buffered, so a frame is decoded by the call that delivers it
    /// and this is the lower-latency option.
    FrameAligned,
    /// A continuous byte stream that may cut anywhere, including mid-frame.
    ///
    /// This is what a raw `.264` file or a socket carrying one gives you. The
    /// decoder buffers a trailing partial frame until later bytes complete it,
    /// which costs one frame of latency: a coded frame cannot be known to be
    /// complete until the start of the next one is seen. Finishing the stream
    /// decodes whatever is still buffered, so the last frame is not lost.
    ByteStream,
}

/// How many decoded frames may be outstanding at once, by default.
///
/// Two for the caller to hold while consuming them, matching the encoder's
/// pipeline depth, plus two for the frames the decode pipeline itself has in
/// flight between submitting a picture and delivering it.
pub const DEFAULT_OUTPUT_DEPTH: usize = 4;

/// Configuration for creating a decoder.
#[derive(Clone, Copy, Debug)]
pub struct DecodeConfig {
    /// The codec to decode.
    pub codec: Codec,
    /// How many decoded frames the caller may hold at once. Defaults to
    /// [`DEFAULT_OUTPUT_DEPTH`]. See [`DecodeConfig::with_output_depth`].
    pub output_depth: usize,
    /// Queue family that will read decoded frames, if it is not the decoder's
    /// own. See [`DecodeConfig::with_consumer_queue_family`].
    pub consumer_queue_family: Option<u32>,
    /// How input is framed. Defaults to [`Framing::FrameAligned`].
    pub framing: Framing,
}

impl DecodeConfig {
    /// Create an H.264 decode configuration.
    pub fn h264() -> (config: Self)
        ensures
            config == (DecodeConfig {
                codec: Codec::H264,
                output_depth: DEFAULT_OUTPUT_DEPTH,
                consumer_queue_family: None,
                framing: Framing::FrameAligned,
            }),
    {
        Self {
            codec: Codec::H264,
            output_depth: DEFAULT_OUTPUT_DEPTH,
            consumer_queue_family: None,
            framing: Framing::FrameAligned,
        }
    }

    /// How many decoded frames the caller may hold at once.
    ///
    /// A frame is the decoder's own DPB image, so an outstanding frame keeps a
    /// DPB slot reserved. The decoder allocates this many slots beyond what the
    /// stream's references and reorder depth need.
    ///
    /// Exceeding it costs a copy, not an error: pictures past the budget are
    /// copied into private images so decoding can continue.
    ///
    /// Clamped to what the device's DPB slot limit allows for the stream, so a
    /// device too small for the request degrades to copying rather than
    /// failing. Each slot costs one decoded picture's worth of memory.
    pub fn with_output_depth(self, depth: usize) -> (config: Self)
        ensures
            config == (DecodeConfig { output_depth: depth, ..self }),
    {
        let mut config = self;
        config.output_depth = depth;
        config
    }

    /// Name the queue family that will read decoded frames.
    ///
    /// By default the decoder shares its pictures with its own decode and
    /// transfer families only. Passing the family of a renderer here adds it to
    /// the sharing set, so frames can be sampled directly with no ownership
    /// transfer and no copy.
    pub fn with_consumer_queue_family(self, family: u32) -> (config: Self)
        ensures
            config == (DecodeConfig { consumer_queue_family: Some(family), ..self }),
    {
        let mut config = self;
        config.consumer_queue_family = Some(family);
        config
    }

    /// Feed a continuous byte stream that may cut mid-frame, rather than whole
    /// coded frames per call. See [`Framing::ByteStream`].
    pub fn with_byte_stream(self) -> (config: Self)
        ensures
            config == (DecodeConfig { framing: Framing::ByteStream, ..self }),
    {
        let mut config = self;
        config.framing = Framing::ByteStream;
        config
    }

    /// Whether a decoder can be made for this configuration, `supported` saying
    /// whether the device can decode the codec. Only H.264 is implemented.
    pub fn check(&self, supported: bool) -> (result: Result<(), PixelForgeError>)
        ensures
            result == if !supported {
                Err::<(), PixelForgeError>(
                    PixelForgeError::CodecNotSupported(Unsupported::Device(self.codec)),
                )
            } else if self.codec != Codec::H264 {
                Err(PixelForgeError::CodecNotSupported(Unsupported::NotImplemented(self.codec)))
            } else {
                Ok(())
            },
    {
        if !supported {
            return Err(PixelForgeError::CodecNotSupported(Unsupported::Device(self.codec)));
        }
        match self.codec {
            Codec::H264 => Ok(()),
            other => Err(PixelForgeError::CodecNotSupported(Unsupported::NotImplemented(other))),
        }
    }
}

/// What feeding data to a decoder did.
///
/// None of these is a failure. Joining a stream mid-flight, or losing packets,
/// routinely produces data that cannot be decoded yet, and a caller has to keep
/// going rather than treat it as an error.
#[derive(Clone, Copy, Debug, PartialEq, Eq, Structural)]
pub enum DecodeStatus {
    /// At least one picture was decoded.
    Decoded,
    /// Nothing to decode yet. The data held no complete coded frame, which is
    /// the normal state of affairs in [`Framing::ByteStream`] when a chunk ends
    /// mid-picture, and of a chunk carrying only parameter sets.
    Buffered,
    /// Nothing can be decoded until a keyframe arrives.
    ///
    /// Pictures were present but reference decode state that does not exist:
    /// parameter sets or reference pictures that were never seen, which is what
    /// joining a stream mid-flight or losing packets looks like. A live client
    /// should ask the sender for a keyframe and keep feeding; the decoder
    /// recovers on its own once one arrives.
    NeedsKeyframe,
}

impl DecodeStatus {
    /// The status of two parts of the same data: a decoded picture takes
    /// priority, then the need for a keyframe.
    pub open spec fn joined(self, other: DecodeStatus) -> DecodeStatus {
        if self == DecodeStatus::Decoded || other == DecodeStatus::Decoded {
            DecodeStatus::Decoded
        } else if self == DecodeStatus::NeedsKeyframe || other == DecodeStatus::NeedsKeyframe {
            DecodeStatus::NeedsKeyframe
        } else {
            DecodeStatus::Buffered
        }
    }

    /// The status of two parts of the same data.
    pub fn join(self, other: DecodeStatus) -> (status: DecodeStatus)
        ensures
            status == self.joined(other),
    {
        if self == DecodeStatus::Decoded || other == DecodeStatus::Decoded {
            DecodeStatus::Decoded
        } else if self == DecodeStatus::NeedsKeyframe || other == DecodeStatus::NeedsKeyframe {
            DecodeStatus::NeedsKeyframe
        } else {
            DecodeStatus::Buffered
        }
    }
}

/// Joining statuses does not depend on their order or grouping, and data that held
/// no picture changes nothing.
pub proof fn law_status_joins(a: DecodeStatus, b: DecodeStatus, c: DecodeStatus)
    ensures
        a.joined(b) == b.joined(a),
        a.joined(b).joined(c) == a.joined(b.joined(c)),
        a.joined(a) == a,
        a.joined(DecodeStatus::Buffered) == a,
        a.joined(DecodeStatus::Decoded) == DecodeStatus::Decoded,
{
}

} // verus!
