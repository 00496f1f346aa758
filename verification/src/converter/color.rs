//! The colour spaces at either end of a conversion.

use crate::video::ColorDescription;
use vstd::prelude::*;

verus! {

/// A brightness in nits, as the bits of a single-precision number. The shader
/// takes it in this form.
#[derive(Clone, Copy, Debug, PartialEq, Eq, Structural)]
pub struct Nits(pub u32);

/// The bits of 203 nits, the reference white of SDR content in HDR video.
pub const NITS_203: u32 = 0x434B_0000;

/// The bits of 80 nits, the white of scRGB.
pub const NITS_80: u32 = 0x42A0_0000;

/// The bits of 0 nits.
pub const NITS_0: u32 = 0;

/// A colour space, used for both ends of a conversion:
/// [`ColorConverterConfig::source`](crate::converter::ColorConverterConfig::source)
/// for the input and
/// [`ColorConverterConfig::target`](crate::converter::ColorConverterConfig::target)
/// for the encoded output.
///
/// The two linear spaces can only be an input. Video files have no way to say
/// "linear", so nothing could be decoded correctly; see
/// [`ColorSpec::is_encodable`].
#[derive(Debug, Clone, Copy, PartialEq, Eq, Hash, Structural)]
pub enum ColorSpec {
    /// Ordinary SDR content, the usual desktop and game output.
    Srgb,
    /// scRGB: like `Srgb` but in linear light. What a
    /// `VK_COLOR_SPACE_EXTENDED_SRGB_LINEAR_EXT` swapchain gives you.
    Bt709Linear,
    /// Linear light in the wide HDR gamut.
    Bt2020Linear,
    /// HDR10: wide gamut, PQ encoded. What a
    /// `VK_COLOR_SPACE_HDR10_ST2084_EXT` swapchain gives you.
    Bt2020Pq,
}

impl ColorSpec {
    /// Whether video can be encoded in this space: not in linear light.
    pub open spec fn encodable(self) -> bool {
        self is Srgb || self is Bt2020Pq
    }

    /// How bright the white of this space is, where it has one.
    pub open spec fn white(self) -> Option<Nits> {
        match self {
            ColorSpec::Srgb => Some(Nits(NITS_203)),
            ColorSpec::Bt2020Linear => Some(Nits(NITS_203)),
            ColorSpec::Bt709Linear => Some(Nits(NITS_80)),
            ColorSpec::Bt2020Pq => None,
        }
    }

    /// What to tell a player about video in this space.
    pub open spec fn description(self) -> Option<ColorDescription> {
        match self {
            ColorSpec::Srgb => Some(ColorDescription::sdr()),
            ColorSpec::Bt2020Pq => Some(ColorDescription::hdr10()),
            _ => None,
        }
    }

    /// The shader's number for this space.
    pub open spec fn number(self) -> u32 {
        match self {
            ColorSpec::Srgb => 0,
            ColorSpec::Bt709Linear => 1,
            ColorSpec::Bt2020Linear => 2,
            ColorSpec::Bt2020Pq => 3,
        }
    }

    /// The name of this space.
    pub open spec fn label(self) -> Seq<char> {
        match self {
            ColorSpec::Srgb => "Srgb"@,
            ColorSpec::Bt709Linear => "Bt709Linear"@,
            ColorSpec::Bt2020Linear => "Bt2020Linear"@,
            ColorSpec::Bt2020Pq => "Bt2020Pq"@,
        }
    }

    /// The name of this space.
    pub fn name(&self) -> (name: &'static str)
        ensures
            name@ == self.label(),
    {
        match *self {
            ColorSpec::Srgb => "Srgb",
            ColorSpec::Bt709Linear => "Bt709Linear",
            ColorSpec::Bt2020Linear => "Bt2020Linear",
            ColorSpec::Bt2020Pq => "Bt2020Pq",
        }
    }

    /// How bright this space's white is, in nits.
    ///
    /// Only used when encoding to HDR, which needs real brightness values
    /// rather than the relative ones SDR content carries. Getting it wrong
    /// makes the picture too bright or too dim, so the spaces differ here:
    /// scRGB defines its white as 80 nits, the others use 203.
    ///
    /// `None` for `Bt2020Pq`, which already carries real brightness values.
    /// Override it with
    /// [`with_reference_white_nits`](crate::converter::ColorConverterConfig::with_reference_white_nits).
    pub fn reference_white_nits(&self) -> (nits: Option<Nits>)
        ensures
            nits == self.white(),
    {
        match *self {
            ColorSpec::Srgb | ColorSpec::Bt2020Linear => Some(Nits(NITS_203)),
            ColorSpec::Bt709Linear => Some(Nits(NITS_80)),
            ColorSpec::Bt2020Pq => None,
        }
    }

    /// Whether video can be encoded in this space.
    ///
    /// False for the two linear spaces: a video file has no way to record that
    /// it holds linear light, so a player would get it wrong.
    pub fn is_encodable(&self) -> (encodable: bool)
        ensures
            encodable == self.encodable(),
    {
        match *self {
            ColorSpec::Srgb | ColorSpec::Bt2020Pq => true,
            ColorSpec::Bt709Linear | ColorSpec::Bt2020Linear => false,
        }
    }

    /// What to tell a player about video in this space.
    ///
    /// `None` when [`Self::is_encodable`] is false. The range is set
    /// separately, by
    /// [`ColorConverterConfig::color_description`](crate::converter::ColorConverterConfig::color_description).
    pub fn color_description(&self) -> (description: Option<ColorDescription>)
        ensures
            description == self.description(),
    {
        match *self {
            // sRGB and BT.709 differ slightly in their curves, but video
            // always labels this case BT.709 and players treat the two the
            // same, so labelling it anything else would be surprising.
            ColorSpec::Srgb => Some(ColorDescription::bt709()),
            ColorSpec::Bt2020Pq => Some(ColorDescription::bt2020_pq()),
            ColorSpec::Bt709Linear | ColorSpec::Bt2020Linear => None,
        }
    }

    /// The shader's number for this space.
    pub fn code(&self) -> (code: u32)
        ensures
            code == self.number(),
    {
        match *self {
            ColorSpec::Srgb => 0,
            ColorSpec::Bt709Linear => 1,
            ColorSpec::Bt2020Linear => 2,
            ColorSpec::Bt2020Pq => 3,
        }
    }
}

/// Luma and chroma quantization range.
#[derive(Debug, Clone, Copy, PartialEq, Eq, Structural)]
pub enum ColorRange {
    /// Studio range: luma 16..235, chroma 16..240 at 8-bit.
    Limited,
    /// Full range: 0..255 at 8-bit.
    Full,
}

impl ColorRange {
    /// Whether this is [`ColorRange::Full`].
    pub fn is_full(&self) -> (full: bool)
        ensures
            full == (self is Full),
    {
        match *self {
            ColorRange::Full => true,
            ColorRange::Limited => false,
        }
    }
}

/// A stream can be described exactly where video can be encoded in its space.
pub proof fn law_description_iff_encodable(spec: ColorSpec)
    ensures
        spec.description() is Some <==> spec.encodable(),
{
}

} // verus!
