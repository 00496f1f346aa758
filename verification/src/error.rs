//! The errors the library reports.

use crate::converter::ColorSpec;
use crate::text::{append_number, decimal};
use crate::video::Codec;
use vstd::prelude::*;

verus! {

/// Why an input was refused.
#[derive(Clone, Copy, Debug, PartialEq, Eq, Structural)]
pub enum InvalidInput {
    /// A read went past the last bit of a NAL unit.
    EndOfNalUnit,
    /// An Exp-Golomb code has more than 31 leading zeros.
    ExpGolomb,
    /// An SPS names a `pic_order_cnt_type` that does not exist.
    PicOrderCntType(u8),
    /// A PPS uses slice groups (FMO).
    SliceGroups,
    /// A slice header's `num_ref_idx_active_minus1` is above 31.
    NumRefIdxActive,
    /// A slice header's `modification_of_pic_nums_idc` does not exist.
    ModificationOfPicNums(u32),
    /// A `memory_management_control_operation` does not exist.
    MemoryManagementControl(u32),
    /// A `dec_ref_pic_marking()` has more operations than any stream needs.
    RunawayMarking,
    /// A picture is coded as a field.
    FieldPicture,
    /// A picture order count type that cannot be decoded.
    UnsupportedPicOrderCntType(u8),
    /// A chroma format that cannot be decoded.
    UnsupportedChromaFormat(u8),
    /// A luma bit depth that cannot be decoded.
    UnsupportedLumaDepth(u32),
    /// A parameter set carries scaling matrices.
    ScalingMatrices,
    /// A profile that cannot be decoded.
    UnsupportedProfile(u8),
    /// A `chroma_format_idc` that does not exist.
    ChromaFormat(u8),
    /// The stream's pictures are larger than the device takes.
    PictureSize { width: u32, height: u32, max_width: u32, max_height: u32 },
    /// The stream needs more DPB slots than the device has.
    DpbSlots { needed: u32, supported: u32 },
    /// The stream needs more active references than the device takes.
    ActiveReferences { needed: u32, supported: u32 },
    /// No DPB slot is free and none is held by the caller.
    NoFreeSlot,
    /// A decode was asked for before there was a session.
    NoSession,
    /// The converter cannot get from one colour space to the other.
    NoConversion { source: ColorSpec, target: ColorSpec },
}

/// Why a codec cannot be used.
#[derive(Clone, Copy, Debug, PartialEq, Eq, Structural)]
pub enum Unsupported {
    /// The device has no picture format for the stream's profile.
    NoPictureFormat,
    /// The selected device cannot decode the codec.
    Device(Codec),
    /// Decoding the codec is not implemented.
    NotImplemented(Codec),
}

/// What a device lacks.
#[derive(Clone, Copy, Debug, PartialEq, Eq, Structural)]
pub enum Lacking {
    /// `VK_KHR_push_descriptor` is not enabled.
    PushDescriptor,
    /// There is no queue family that decodes video.
    DecodeQueueFamily,
    /// There is no queue that decodes video.
    DecodeQueue,
}

/// The error type of this crate.
#[derive(Clone, Copy, Debug, PartialEq, Eq, Structural)]
pub enum PixelForgeError {
    /// The input is malformed or not supported.
    InvalidInput(InvalidInput),
    /// The codec, or what the stream asks of it, is not supported.
    CodecNotSupported(Unsupported),
    /// The device cannot do what is asked of it.
    NoSuitableDevice(Lacking),
}

impl InvalidInput {
    /// The reason in words.
    pub open spec fn text(self) -> Seq<char> {
        match self {
            InvalidInput::EndOfNalUnit => "bitstream: read past end of NAL unit"@,
            InvalidInput::ExpGolomb => "bitstream: invalid Exp-Golomb code"@,
            InvalidInput::PicOrderCntType(n) => "H.264 SPS: invalid pic_order_cnt_type "@ + decimal(n as nat),
            InvalidInput::SliceGroups => "H.264 PPS: slice groups (FMO) are not supported"@,
            InvalidInput::NumRefIdxActive => "H.264 decode: num_ref_idx_active_minus1 out of range"@,
            InvalidInput::ModificationOfPicNums(n) => "H.264 decode: invalid modification_of_pic_nums_idc "@ + decimal(n as nat),
            InvalidInput::MemoryManagementControl(n) => "H.264 decode: invalid memory_management_control_operation "@ + decimal(n as nat),
            InvalidInput::RunawayMarking => "H.264 decode: runaway dec_ref_pic_marking"@,
            InvalidInput::FieldPicture => "H.264 decode: field/interlaced pictures are not supported"@,
            InvalidInput::UnsupportedPicOrderCntType(n) => "H.264 decode: unsupported pic_order_cnt_type "@ + decimal(n as nat),
            InvalidInput::UnsupportedChromaFormat(n) => "H.264 decode: unsupported chroma_format_idc "@ + decimal(n as nat),
            InvalidInput::UnsupportedLumaDepth(n) => "H.264 decode: unsupported luma bit depth "@ + decimal(n as nat),
            InvalidInput::ScalingMatrices => "H.264 decode: streams with explicit scaling matrices are not supported"@,
            InvalidInput::UnsupportedProfile(n) => "H.264 decode: unsupported profile_idc "@ + decimal(n as nat),
            InvalidInput::ChromaFormat(n) => "H.264 decode: invalid chroma_format_idc "@ + decimal(n as nat),
            InvalidInput::PictureSize { width, height, max_width, max_height } => "H.264 decode: stream is "@ + decimal(width as nat) + "x"@ + decimal(height as nat) + ", device maximum is "@ + decimal(max_width as nat) + "x"@ + decimal(max_height as nat),
            InvalidInput::DpbSlots { needed, supported } => "H.264 decode: stream needs "@ + decimal(needed as nat) + " DPB slots, device supports "@ + decimal(supported as nat),
            InvalidInput::ActiveReferences { needed, supported } => "H.264 decode: stream needs "@ + decimal(needed as nat) + " active reference pictures, device supports "@ + decimal(supported as nat),
            InvalidInput::NoFreeSlot => "H.264 decode: no free DPB slot (stream exceeds negotiated DPB size)"@,
            InvalidInput::NoSession => "decode: no active session"@,
            InvalidInput::NoConversion { source, target } => "no conversion from "@ + source.label()
                + " to "@ + target.label() + ": "@ + if target.encodable() {
                "converting to SDR would need tone mapping or a gamma curve applied, which the shader does not do"@
            } else {
                "video cannot be encoded in a linear space, so it can only be a source"@
            },
        }
    }

    /// The reason in words.
    pub fn message(&self) -> (message: String)
        ensures
            message@ == self.text(),
    {
        let mut out = String::new();
        match *self {
            InvalidInput::EndOfNalUnit => {
                out.append("bitstream: read past end of NAL unit");
            },
            InvalidInput::ExpGolomb => {
                out.append("bitstream: invalid Exp-Golomb code");
            },
            InvalidInput::PicOrderCntType(n) => {
                out.append("H.264 SPS: invalid pic_order_cnt_type ");
                append_number(&mut out, n as u32);
            },
            InvalidInput::SliceGroups => {
                out.append("H.264 PPS: slice groups (FMO) are not supported");
            },
            InvalidInput::NumRefIdxActive => {
                out.append("H.264 decode: num_ref_idx_active_minus1 out of range");
            },
            InvalidInput::ModificationOfPicNums(n) => {
                out.append("H.264 decode: invalid modification_of_pic_nums_idc ");
                append_number(&mut out, n);
            },
            InvalidInput::MemoryManagementControl(n) => {
                out.append("H.264 decode: invalid memory_management_control_operation ");
                append_number(&mut out, n);
            },
            InvalidInput::RunawayMarking => {
                out.append("H.264 decode: runaway dec_ref_pic_marking");
            },
            InvalidInput::FieldPicture => {
                out.append("H.264 decode: field/interlaced pictures are not supported");
            },
            InvalidInput::UnsupportedPicOrderCntType(n) => {
                out.append("H.264 decode: unsupported pic_order_cnt_type ");
                append_number(&mut out, n as u32);
            },
            InvalidInput::UnsupportedChromaFormat(n) => {
                out.append("H.264 decode: unsupported chroma_format_idc ");
                append_number(&mut out, n as u32);
            },
            InvalidInput::UnsupportedLumaDepth(n) => {
                out.append("H.264 decode: unsupported luma bit depth ");
                append_number(&mut out, n);
            },
            InvalidInput::ScalingMatrices => {
                out.append("H.264 decode: streams with explicit scaling matrices are not supported");
            },
            InvalidInput::UnsupportedProfile(n) => {
                out.append("H.264 decode: unsupported profile_idc ");
                append_number(&mut out, n as u32);
            },
            InvalidInput::ChromaFormat(n) => {
                out.append("H.264 decode: invalid chroma_format_idc ");
                append_number(&mut out, n as u32);
            },
            InvalidInput::PictureSize { width, height, max_width, max_height } => {
                out.append("H.264 decode: stream is ");
                append_number(&mut out, width);
                out.append("x");
                append_number(&mut out, height);
                out.append(", device maximum is ");
                append_number(&mut out, max_width);
                out.append("x");
                append_number(&mut out, max_height);
            },
            InvalidInput::DpbSlots { needed, supported } => {
                out.append("H.264 decode: stream needs ");
                append_number(&mut out, needed);
                out.append(" DPB slots, device supports ");
                append_number(&mut out, supported);
            },
            InvalidInput::ActiveReferences { needed, supported } => {
                out.append("H.264 decode: stream needs ");
                append_number(&mut out, needed);
                out.append(" active reference pictures, device supports ");
                append_number(&mut out, supported);
            },
            InvalidInput::NoFreeSlot => {
                out.append("H.264 decode: no free DPB slot (stream exceeds negotiated DPB size)");
            },
            InvalidInput::NoSession => {
                out.append("decode: no active session");
            },
            InvalidInput::NoConversion { source, target } => {
                let reason = if target.is_encodable() {
                    "converting to SDR would need tone mapping or a gamma curve applied, which the shader does not do"
                } else {
                    "video cannot be encoded in a linear space, so it can only be a source"
                };
                out.append("no conversion from ");
                out.append(source.name());
                out.append(" to ");
                out.append(target.name());
                out.append(": ");
                out.append(reason);
            },
        }
        assert(out@ =~= self.text());
        out
    }
}

impl Unsupported {
    /// The reason in words.
    pub open spec fn text(self) -> Seq<char> {
        match self {
            Unsupported::NoPictureFormat =>
                "H.264 decode: no supported picture format for this profile"@,
            Unsupported::Device(codec) => codec.label()
                + " decode is not supported by the selected device"@,
            Unsupported::NotImplemented(codec) => codec.label()
                + " decoding is not implemented yet"@,
        }
    }

    /// The reason in words.
    pub fn message(&self) -> (message: String)
        ensures
            message@ == self.text(),
    {
        let mut out = String::new();
        match *self {
            Unsupported::NoPictureFormat => {
                out.append("H.264 decode: no supported picture format for this profile");
            },
            Unsupported::Device(codec) => {
                out.append(codec.name());
                out.append(" decode is not supported by the selected device");
            },
            Unsupported::NotImplemented(codec) => {
                out.append(codec.name());
                out.append(" decoding is not implemented yet");
            },
        }
        assert(out@ =~= self.text());
        out
    }
}

impl Lacking {
    /// The reason in words.
    pub open spec fn text(self) -> Seq<char> {
        match self {
            Lacking::PushDescriptor =>
                "VK_KHR_push_descriptor is required but not enabled on this device"@,
            Lacking::DecodeQueueFamily => "Device has no video decode queue family"@,
            Lacking::DecodeQueue => "Device has no video decode queue"@,
        }
    }

    /// The reason in words.
    pub fn message(&self) -> (message: String)
        ensures
            message@ == self.text(),
    {
        let text = match *self {
            Lacking::PushDescriptor =>
                "VK_KHR_push_descriptor is required but not enabled on this device",
            Lacking::DecodeQueueFamily => "Device has no video decode queue family",
            Lacking::DecodeQueue => "Device has no video decode queue",
        };
        text.to_owned()
    }
}

impl PixelForgeError {
    /// The error in words.
    pub open spec fn text(self) -> Seq<char> {
        match self {
            PixelForgeError::InvalidInput(reason) => reason.text(),
            PixelForgeError::CodecNotSupported(reason) => reason.text(),
            PixelForgeError::NoSuitableDevice(reason) => reason.text(),
        }
    }

    /// The error in words.
    pub fn message(&self) -> (message: String)
        ensures
            message@ == self.text(),
    {
        match *self {
            PixelForgeError::InvalidInput(reason) => reason.message(),
            PixelForgeError::CodecNotSupported(reason) => reason.message(),
            PixelForgeError::NoSuitableDevice(reason) => reason.message(),
        }
    }
}

/// Words with two numbers in them, the second at the end.
pub open spec fn with_numbers(before: Seq<char>, x: nat, between: Seq<char>, y: nat) -> Seq<char> {
    before + decimal(x) + between + decimal(y)
}

/// A refusal tells what the stream needs before it tells what the device has.
pub proof fn law_refusals_name_need_and_limit(needed: u32, supported: u32)
    ensures
        exists|before: Seq<char>, between: Seq<char>|
            (InvalidInput::DpbSlots { needed, supported }).text() == #[trigger] with_numbers(
                before,
                needed as nat,
                between,
                supported as nat,
            ),
        exists|before: Seq<char>, between: Seq<char>|
            (InvalidInput::ActiveReferences { needed, supported }).text()
                == #[trigger] with_numbers(before, needed as nat, between, supported as nat),
{
    let before = "H.264 decode: stream needs "@;
    let slots = " DPB slots, device supports "@;
    let references = " active reference pictures, device supports "@;
    assert((InvalidInput::DpbSlots { needed, supported }).text() == with_numbers(
        before,
        needed as nat,
        slots,
        supported as nat,
    ));
    assert((InvalidInput::ActiveReferences { needed, supported }).text() == with_numbers(
        before,
        needed as nat,
        references,
        supported as nat,
    ));
}

/// Words with two sizes in them, the second at the end.
pub open spec fn with_sizes(
    before: Seq<char>,
    size: (nat, nat),
    between: Seq<char>,
    limit: (nat, nat),
) -> Seq<char> {
    before + decimal(size.0) + "x"@ + decimal(size.1) + between + decimal(limit.0) + "x"@
        + decimal(limit.1)
}

/// A refusal of the size of pictures tells that size, width first, and then the
/// largest.
pub proof fn law_size_refusal_names_both_sizes(
    width: u32,
    height: u32,
    max_width: u32,
    max_height: u32,
)
    ensures
        exists|before: Seq<char>, between: Seq<char>|
            (InvalidInput::PictureSize { width, height, max_width, max_height }).text()
                == #[trigger] with_sizes(
                before,
                (width as nat, height as nat),
                between,
                (max_width as nat, max_height as nat),
            ),
{
    assert((InvalidInput::PictureSize { width, height, max_width, max_height }).text()
        == with_sizes(
        "H.264 decode: stream is "@,
        (width as nat, height as nat),
        ", device maximum is "@,
        (max_width as nat, max_height as nat),
    ));
}

} // verus!
