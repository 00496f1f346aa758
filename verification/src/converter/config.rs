//! What a conversion is from and to, and whether there is a way.

use crate::converter::color::{ColorRange, ColorSpec, Nits, NITS_0, NITS_203, NITS_80};
use crate::converter::format::{InputFormat, OutputFormat};
use crate::error::{InvalidInput, PixelForgeError};
use crate::video::ColorDescription;
use vstd::prelude::*;

verus! {

/// Configuration for the color converter.
///
/// Colour is two decisions: [`source`](Self::source) for what the input pixels
/// are, [`target`](Self::target) for what the encoded stream should be.
#[derive(Clone, Debug)]
#[non_exhaustive]
pub struct ColorConverterConfig {
    /// Input frame width.
    pub width: u32,
    /// Input frame height.
    pub height: u32,
    /// Input pixel format.
    pub input_format: InputFormat,
    /// Output YUV format.
    pub output_format: OutputFormat,
    /// What the input pixels already are.
    pub source: ColorSpec,
    /// What the encoded stream should be. Also picks the YUV matrix.
    ///
    /// Must be a space video can be encoded in, see
    /// [`ColorSpec::is_encodable`].
    pub target: ColorSpec,
    /// How bright the source's white is, in nits, overriding the source
    /// space's default. Only used when encoding to HDR.
    pub reference_white_nits: Option<Nits>,
    /// Whether the shader writes full or limited range.
    ///
    /// The stream has to say the same thing, which is what
    /// [`color_description`](Self::color_description) is for.
    pub range: ColorRange,
}

/// Whether the shader can get from `source` to `target`: anything can be
/// converted to HDR; SDR only stays SDR, since the rest would need tone mapping or
/// a gamma curve.
pub open spec fn reachable(source: ColorSpec, target: ColorSpec) -> bool {
    target is Bt2020Pq || (target is Srgb && source is Srgb)
}

impl ColorConverterConfig {
    /// Whether the shader can get from the source to the target.
    pub open spec fn supported(self) -> bool {
        reachable(self.source, self.target)
    }

    /// The brightness the shader gets: the override, or the source's default.
    pub open spec fn white(self) -> Nits {
        match self.reference_white_nits {
            Some(nits) => nits,
            None => match self.source.white() {
                Some(nits) => nits,
                None => Nits(NITS_0),
            },
        }
    }

    /// How the stream describes what the shader writes.
    pub open spec fn description(self) -> Option<ColorDescription> {
        match self.target.description() {
            Some(description) => Some(
                ColorDescription { full_range: self.range is Full, ..description },
            ),
            None => None,
        }
    }

    /// Why the conversion is refused.
    pub open spec fn refusal(self) -> PixelForgeError {
        PixelForgeError::InvalidInput(
            InvalidInput::NoConversion { source: self.source, target: self.target },
        )
    }

    /// Create a new configuration.
    pub fn new(
        width: u32,
        height: u32,
        input_format: InputFormat,
        output_format: OutputFormat,
        source_color: ColorSpec,
        target_color: ColorSpec,
        color_range: ColorRange,
    ) -> (config: Self)
        ensures
            config == (ColorConverterConfig {
                width,
                height,
                input_format,
                output_format,
                source: source_color,
                target: target_color,
                reference_white_nits: None,
                range: color_range,
            }),
    {
        ColorConverterConfig {
            width,
            height,
            input_format,
            output_format,
            source: source_color,
            target: target_color,
            range: color_range,
            reference_white_nits: None,
        }
    }

    /// Override how bright the source's white is, in nits.
    ///
    /// Rarely needed; each space already has a sensible default, see
    /// [`ColorSpec::reference_white_nits`].
    pub fn with_reference_white_nits(self, nits: Nits) -> (config: Self)
        ensures
            config == (ColorConverterConfig { reference_white_nits: Some(nits), ..self }),
    {
        ColorConverterConfig { reference_white_nits: Some(nits), ..self }
    }

    /// The value the shader gets: the override, or the source's default.
    pub fn effective_reference_white_nits(&self) -> (nits: Nits)
        ensures
            nits == self.white(),
    {
        match self.reference_white_nits {
            Some(nits) => nits,
            None => match self.source.reference_white_nits() {
                Some(nits) => nits,
                None => Nits(NITS_0),
            },
        }
    }

    /// What to tell the encoder about the colours this conversion produces.
    ///
    /// Taken from [`target`](Self::target) and [`range`](Self::range), so the
    /// stream cannot end up describing something the shader did not write.
    ///
    /// `None` when the target is one [`ColorConverter::new`] would reject
    /// anyway. [`ColorConverter::color_description`] gives the same answer
    /// without the `Option`.
    pub fn color_description(&self) -> (description: Option<ColorDescription>)
        ensures
            description == self.description(),
    {
        match self.target.color_description() {
            Some(description) => Some(description.with_full_range(self.range.is_full())),
            None => None,
        }
    }

    /// Whether the shader can get from this source to this target.
    ///
    /// Anything that would need tone mapping or a forward gamma encode is not
    /// implemented, and is rejected rather than silently passed through.
    pub fn conversion_supported(&self) -> (supported: bool)
        ensures
            supported == self.supported(),
    {
        match self.target {
            // Anything can be converted to HDR.
            ColorSpec::Bt2020Pq => true,
            // Converting to SDR would need tone mapping or a gamma curve.
            ColorSpec::Srgb => match self.source {
                ColorSpec::Srgb => true,
                _ => false,
            },
            // Cannot be encoded at all, see `ColorSpec::is_encodable`.
            ColorSpec::Bt709Linear | ColorSpec::Bt2020Linear => false,
        }
    }

    /// Error explaining why [`Self::conversion_supported`] said no.
    pub fn unsupported_conversion(&self) -> (error: PixelForgeError)
        ensures
            error == self.refusal(),
    {
        PixelForgeError::InvalidInput(
            InvalidInput::NoConversion { source: self.source, target: self.target },
        )
    }
}

/// A colour format converter: a configuration that the shader can carry out.
///
/// That the source reaches the target holds of every converter, from its creation
/// through every change of its configuration.
pub struct ColorConverter {
    config: ColorConverterConfig,
}

impl View for ColorConverter {
    type V = ColorConverterConfig;

    closed spec fn view(&self) -> ColorConverterConfig {
        self.config
    }
}

impl ColorConverter {
    #[verifier::type_invariant]
    spec fn reaches_target(self) -> bool {
        self.config.supported()
    }

    /// Create a new color converter.
    ///
    /// Fails if the shader has no path from the configured
    /// [`source`](ColorConverterConfig::source) to its
    /// [`target`](ColorConverterConfig::target).
    pub fn new(config: ColorConverterConfig) -> (result: Result<Self, PixelForgeError>)
        ensures
            match result {
                Ok(converter) => config.supported() && converter@ == config,
                Err(error) => !config.supported() && error == config.refusal(),
            },
    {
        if !config.conversion_supported() {
            return Err(config.unsupported_conversion());
        }
        Ok(ColorConverter { config })
    }

    /// What to tell the encoder about the colours this converter produces.
    ///
    /// [`ColorConverterConfig::color_description`] without the `Option`: this
    /// converter exists, so its target was already checked.
    pub fn color_description(&self) -> (description: ColorDescription)
        ensures
            self@.description() == Some(description),
    {
        proof {
            use_type_invariant(self);
        }
        match self.config.color_description() {
            Some(description) => description,
            None => {
                assert(false);
                ColorDescription::bt709()
            },
        }
    }

    /// Get the converter configuration.
    pub fn config(&self) -> (config: &ColorConverterConfig)
        ensures
            *config == self@,
            config.supported(),
    {
        proof {
            use_type_invariant(self);
        }
        &self.config
    }

    /// Change what the input pixels are, for subsequent conversions.
    ///
    /// Takes effect on the next conversion without recreating the pipeline,
    /// since the source is passed via push constants.
    ///
    /// Returns an error, and leaves the converter untouched, if the new source
    /// cannot reach the configured target.
    pub fn set_source(&mut self, source: ColorSpec) -> (result: Result<(), PixelForgeError>)
        ensures
            ({
                let candidate = ColorConverterConfig { source, ..old(self)@ };
                match result {
                    Ok(()) => candidate.supported() && final(self)@ == candidate,
                    Err(error) => {
                        &&& !candidate.supported()
                        &&& error == candidate.refusal()
                        &&& final(self)@ == old(self)@
                    },
                }
            }),
    {
        let candidate = ColorConverterConfig { source, ..self.config };
        if !candidate.conversion_supported() {
            return Err(candidate.unsupported_conversion());
        }
        self.config = candidate;
        Ok(())
    }

    /// Change what the encoded stream should be, for subsequent conversions.
    ///
    /// Takes effect on the next conversion without recreating the pipeline,
    /// since the target is passed via push constants.
    ///
    /// Returns an error, and leaves the converter untouched, if the configured
    /// source cannot reach the new target.
    ///
    /// The target is half of what [`ColorConverterConfig::color_description`]
    /// derives from, so an encoder told about the old one is now describing the
    /// wrong signal. Pass it the new description.
    pub fn set_target(&mut self, target: ColorSpec) -> (result: Result<(), PixelForgeError>)
        ensures
            ({
                let candidate = ColorConverterConfig { target, ..old(self)@ };
                match result {
                    Ok(()) => candidate.supported() && final(self)@ == candidate,
                    Err(error) => {
                        &&& !candidate.supported()
                        &&& error == candidate.refusal()
                        &&& final(self)@ == old(self)@
                    },
                }
            }),
    {
        let candidate = ColorConverterConfig { target, ..self.config };
        if !candidate.conversion_supported() {
            return Err(candidate.unsupported_conversion());
        }
        self.config = candidate;
        Ok(())
    }

    /// Change the quantization range for subsequent conversions.
    ///
    /// Takes effect on the next conversion without recreating the pipeline,
    /// since the range is passed via push constants. The range is the other
    /// half of [`ColorConverterConfig::color_description`], so the same
    /// re-declaration as [`Self::set_target`] applies.
    pub fn set_range(&mut self, range: ColorRange)
        ensures
            final(self)@ == (ColorConverterConfig { range, ..old(self)@ }),
    {
        proof {
            use_type_invariant(&*self);
        }
        self.config = ColorConverterConfig { range, ..self.config };
    }
}

/// Every source can be converted to HDR.
pub proof fn law_every_source_reaches_pq(source: ColorSpec)
    ensures
        reachable(source, ColorSpec::Bt2020Pq),
{
}

/// Only SDR content can be converted to SDR.
pub proof fn law_only_srgb_reaches_sdr(source: ColorSpec)
    ensures
        reachable(source, ColorSpec::Srgb) <==> source == ColorSpec::Srgb,
{
}

/// A space can be the target of a conversion exactly where video can be encoded
/// in it.
pub proof fn law_reachable_iff_encodable(target: ColorSpec)
    ensures
        target.encodable() <==> exists|source: ColorSpec| reachable(source, target),
{
    assert(reachable(target, ColorSpec::Bt2020Pq));
    if target is Srgb {
        assert(reachable(ColorSpec::Srgb, target));
    }
}

/// The stream says what the shader wrote: the description follows the target and
/// the range, and the source has no part in it.
pub proof fn law_description_ignores_source(config: ColorConverterConfig, source: ColorSpec)
    ensures
        (ColorConverterConfig { source, ..config }).description() == config.description(),
        config.supported() ==> config.description() is Some,
        config.description() matches Some(description) ==> description.full_range == (
        config.range is Full),
{
}

/// The stream names the target: everything BT.709 for SDR, BT.2020 primaries and
/// matrix with PQ for HDR, and only the latter is HDR.
pub proof fn law_description_names_the_target(config: ColorConverterConfig)
    requires
        config.supported(),
    ensures
        ({
            let description = config.description()->0;
            &&& config.target is Srgb ==> description.color_primaries == 1
                && description.transfer_characteristics == 1 && description.matrix_coefficients
                == 1
            &&& config.target is Bt2020Pq ==> description.color_primaries == 9
                && description.transfer_characteristics == 16 && description.matrix_coefficients
                == 9
            &&& config.target is Srgb || config.target is Bt2020Pq
        }),
{
}

/// White is as bright as it was overridden to be, or as the source has it: linear
/// BT.709 is the only source whose white is dimmer than that of SDR, and PQ has none.
pub proof fn law_white_follows_the_source(config: ColorConverterConfig, nits: Nits)
    ensures
        (ColorConverterConfig { reference_white_nits: Some(nits), ..config }).white() == nits,
        config.reference_white_nits is None ==> config.white().0 == match config.source {
            ColorSpec::Srgb | ColorSpec::Bt2020Linear => NITS_203,
            ColorSpec::Bt709Linear => NITS_80,
            ColorSpec::Bt2020Pq => NITS_0,
        },
{
}

/// A refusal names the conversion: from which space, and to which.
pub proof fn law_refusal_names_both_ends(config: ColorConverterConfig)
    ensures
        config.refusal() matches PixelForgeError::InvalidInput(
            InvalidInput::NoConversion { source, target },
        ) && source == config.source && target == config.target,
{
}

} // verus!
