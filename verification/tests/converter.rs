//! The colour converter: formats, configuration, and what a conversion asks of the
//! device.

use ash::vk;
use pixelforge::converter::color::{ColorRange, ColorSpec, Nits};
use pixelforge::converter::plan::{
    check_device, get_spirv_code, source_view, CachedView, CopyRegion, ViewStep,
};
use pixelforge::converter::{ColorConverter, ColorConverterConfig, InputFormat, OutputFormat};
use pixelforge::error::{InvalidInput, Lacking, PixelForgeError};
use pixelforge::video::ColorDescription;

/// The figure that a brightness stands for.
fn figure(nits: Nits) -> f32 {
    f32::from_bits(nits.0)
}

#[test]
fn test_input_format_bytes_per_pixel() {
    assert_eq!(InputFormat::BGRx.bytes_per_pixel(), 4);
    assert_eq!(InputFormat::RGBx.bytes_per_pixel(), 4);
    assert_eq!(InputFormat::BGRA.bytes_per_pixel(), 4);
    assert_eq!(InputFormat::RGBA.bytes_per_pixel(), 4);
    assert_eq!(InputFormat::ABGR2101010.bytes_per_pixel(), 4);
    assert_eq!(InputFormat::RGBA16F.bytes_per_pixel(), 8);
}

#[test]
fn test_input_format_enum_values() {
    // Verify enum values match shader expectations.
    assert_eq!(InputFormat::BGRx as u32, 0);
    assert_eq!(InputFormat::RGBx as u32, 1);
    assert_eq!(InputFormat::BGRA as u32, 2);
    assert_eq!(InputFormat::RGBA as u32, 3);
    assert_eq!(InputFormat::ABGR2101010 as u32, 4);
    assert_eq!(InputFormat::RGBA16F as u32, 5);
    for format in [
        InputFormat::BGRx,
        InputFormat::RGBx,
        InputFormat::BGRA,
        InputFormat::RGBA,
        InputFormat::ABGR2101010,
        InputFormat::RGBA16F,
    ] {
        assert_eq!(format.code(), format as u32);
    }
}

#[test]
fn test_input_format_vk_format() {
    assert_eq!(InputFormat::BGRx.vk_format(), vk::Format::B8G8R8A8_UNORM.as_raw());
    assert_eq!(InputFormat::BGRA.vk_format(), vk::Format::B8G8R8A8_UNORM.as_raw());
    assert_eq!(InputFormat::RGBx.vk_format(), vk::Format::R8G8B8A8_UNORM.as_raw());
    assert_eq!(InputFormat::RGBA.vk_format(), vk::Format::R8G8B8A8_UNORM.as_raw());
    assert_eq!(
        InputFormat::ABGR2101010.vk_format(),
        vk::Format::A2B10G10R10_UNORM_PACK32.as_raw()
    );
    assert_eq!(
        InputFormat::RGBA16F.vk_format(),
        vk::Format::R16G16B16A16_SFLOAT.as_raw()
    );
}

#[test]
fn output_formats_have_their_vulkan_formats() {
    assert_eq!(
        OutputFormat::NV12.vulkan_format(),
        vk::Format::G8_B8R8_2PLANE_420_UNORM.as_raw()
    );
    assert_eq!(
        OutputFormat::I420.vulkan_format(),
        vk::Format::G8_B8_R8_3PLANE_420_UNORM.as_raw()
    );
    assert_eq!(
        OutputFormat::YUV444.vulkan_format(),
        vk::Format::G8_B8R8_2PLANE_444_UNORM.as_raw()
    );
    assert_eq!(
        OutputFormat::P010.vulkan_format(),
        vk::Format::G10X6_B10X6R10X6_2PLANE_420_UNORM_3PACK16.as_raw()
    );
    assert_eq!(
        OutputFormat::YUV444P10.vulkan_format(),
        vk::Format::G10X6_B10X6R10X6_2PLANE_444_UNORM_3PACK16.as_raw()
    );
}

#[test]
fn spec_discriminants_match_the_shader() {
    // The shader's SPEC_* defines. One set, used for both push constants.
    assert_eq!(ColorSpec::Srgb as u32, 0);
    assert_eq!(ColorSpec::Bt709Linear as u32, 1);
    assert_eq!(ColorSpec::Bt2020Linear as u32, 2);
    assert_eq!(ColorSpec::Bt2020Pq as u32, 3);
    for spec in [
        ColorSpec::Srgb,
        ColorSpec::Bt709Linear,
        ColorSpec::Bt2020Linear,
        ColorSpec::Bt2020Pq,
    ] {
        assert_eq!(spec.code(), spec as u32);
        assert_eq!(spec.name(), format!("{spec:?}"));
    }
}

#[test]
fn range_matches_the_shader() {
    // The shader's `range == 0u` test.
    assert!(!ColorRange::Limited.is_full());
    assert!(ColorRange::Full.is_full());
}

#[test]
fn only_encodable_specs_describe_a_stream() {
    // A decoder can be told about these two.
    assert_eq!(
        ColorSpec::Srgb.color_description(),
        Some(ColorDescription::bt709())
    );
    assert_eq!(
        ColorSpec::Bt2020Pq.color_description(),
        Some(ColorDescription::bt2020_pq())
    );
    assert!(ColorSpec::Srgb.is_encodable());
    assert!(ColorSpec::Bt2020Pq.is_encodable());

    // Linear light cannot be encoded, and these say so.
    for spec in [ColorSpec::Bt709Linear, ColorSpec::Bt2020Linear] {
        assert!(!spec.is_encodable(), "{spec:?}");
        assert_eq!(spec.color_description(), None, "{spec:?}");
    }
}

#[test]
fn scrgb_white_is_not_the_srgb_reference() {
    // scRGB's white is 80 nits, not the 203 the other spaces use. Using
    // 203 for it makes HDR output far too bright.
    assert_eq!(
        ColorSpec::Bt709Linear.reference_white_nits().map(figure),
        Some(80.0)
    );
    assert_eq!(
        ColorSpec::Srgb.reference_white_nits().map(figure),
        Some(203.0)
    );
    assert_eq!(
        ColorSpec::Bt2020Linear.reference_white_nits().map(figure),
        Some(203.0)
    );
}

#[test]
fn pq_has_no_reference_white() {
    // Already carries real brightness values, so there is nothing to ask.
    assert_eq!(ColorSpec::Bt2020Pq.reference_white_nits(), None);
}

#[test]
fn the_override_replaces_the_standard_figure() {
    let base = ColorConverterConfig::new(
        64,
        64,
        InputFormat::BGRA,
        OutputFormat::P010,
        ColorSpec::Bt709Linear,
        ColorSpec::Bt2020Pq,
        ColorRange::Full,
    );
    // Unset, the source's own figure is what the shader gets.
    assert_eq!(base.reference_white_nits, None);
    assert_eq!(figure(base.effective_reference_white_nits()), 80.0);

    let overridden = base
        .clone()
        .with_reference_white_nits(Nits(203.0f32.to_bits()));
    assert_eq!(figure(overridden.effective_reference_white_nits()), 203.0);
    // The space itself is untouched; the override lives on the conversion.
    assert_eq!(overridden.source, ColorSpec::Bt709Linear);
    assert_eq!(
        overridden.source.reference_white_nits().map(figure),
        Some(80.0)
    );
}

#[test]
fn a_pq_source_needs_no_reference_white() {
    // Nothing reads it, so an absent figure has to be harmless rather than
    // a panic or a NaN reaching the shader.
    let config = ColorConverterConfig::new(
        64,
        64,
        InputFormat::BGRA,
        OutputFormat::P010,
        ColorSpec::Bt2020Pq,
        ColorSpec::Bt2020Pq,
        ColorRange::Full,
    );
    assert_eq!(figure(config.effective_reference_white_nits()), 0.0);
}

fn config_for(target: ColorSpec, range: ColorRange) -> ColorConverterConfig {
    config_from(ColorSpec::Srgb, target, range)
}

fn config_from(source: ColorSpec, target: ColorSpec, range: ColorRange) -> ColorConverterConfig {
    ColorConverterConfig::new(
        64,
        64,
        InputFormat::BGRA,
        OutputFormat::NV12,
        source,
        target,
        range,
    )
}

#[test]
fn description_follows_the_target() {
    let sdr = config_for(ColorSpec::Srgb, ColorRange::Limited)
        .color_description()
        .expect("sRGB is encodable");
    assert_eq!(sdr, ColorDescription::bt709());
    assert!(!sdr.is_hdr());

    let hdr = config_for(ColorSpec::Bt2020Pq, ColorRange::Limited)
        .color_description()
        .expect("PQ is encodable");
    assert_eq!(hdr, ColorDescription::bt2020_pq());
    assert!(hdr.is_hdr());
}

#[test]
fn description_follows_the_range() {
    // The drift this whole split exists to prevent: what the shader
    // quantizes to and what the VUI claims are now one decision.
    for target in [ColorSpec::Srgb, ColorSpec::Bt2020Pq] {
        for range in [ColorRange::Limited, ColorRange::Full] {
            let config = config_for(target, range);
            assert_eq!(
                config
                    .color_description()
                    .expect("both targets are encodable")
                    .full_range,
                config.range.is_full(),
                "{target:?} / {range:?}"
            );
        }
    }
}

#[test]
fn description_ignores_the_source() {
    // The source says nothing about the encoded stream, so it must not
    // reach the declaration.
    let from_srgb = config_from(ColorSpec::Srgb, ColorSpec::Bt2020Pq, ColorRange::Full);
    let from_scrgb = config_from(
        ColorSpec::Bt709Linear,
        ColorSpec::Bt2020Pq,
        ColorRange::Full,
    );
    let from_pq = config_from(ColorSpec::Bt2020Pq, ColorSpec::Bt2020Pq, ColorRange::Full);
    assert_eq!(
        from_srgb.color_description(),
        from_scrgb.color_description()
    );
    assert_eq!(from_srgb.color_description(), from_pq.color_description());
}

#[test]
fn every_source_can_reach_pq() {
    for source in [
        ColorSpec::Srgb,
        ColorSpec::Bt709Linear,
        ColorSpec::Bt2020Linear,
        ColorSpec::Bt2020Pq,
    ] {
        let config = config_from(source, ColorSpec::Bt2020Pq, ColorRange::Full);
        assert!(config.conversion_supported(), "{source:?}");
    }
}

#[test]
fn only_srgb_can_reach_sdr() {
    // Everything else would need a forward gamma encode or tone mapping,
    // and the shader does neither. Rejected beats silently passed through.
    let ok = config_from(ColorSpec::Srgb, ColorSpec::Srgb, ColorRange::Limited);
    assert!(ok.conversion_supported());

    for source in [
        ColorSpec::Bt709Linear,
        ColorSpec::Bt2020Linear,
        ColorSpec::Bt2020Pq,
    ] {
        let config = config_from(source, ColorSpec::Srgb, ColorRange::Limited);
        assert!(!config.conversion_supported(), "{source:?}");
    }
}

#[test]
fn no_source_can_reach_a_linear_space() {
    for target in [ColorSpec::Bt709Linear, ColorSpec::Bt2020Linear] {
        for source in [
            ColorSpec::Srgb,
            ColorSpec::Bt709Linear,
            ColorSpec::Bt2020Linear,
            ColorSpec::Bt2020Pq,
        ] {
            assert!(!config_from(source, target, ColorRange::Full).conversion_supported());
        }
    }
}

#[test]
fn refused_conversions_say_why() {
    let tone = config_from(ColorSpec::Bt2020Pq, ColorSpec::Srgb, ColorRange::Limited);
    assert_eq!(
        tone.unsupported_conversion().message(),
        "no conversion from Bt2020Pq to Srgb: converting to SDR would need tone mapping or a \
         gamma curve applied, which the shader does not do"
    );
    let linear = config_from(ColorSpec::Srgb, ColorSpec::Bt709Linear, ColorRange::Limited);
    assert_eq!(
        linear.unsupported_conversion().message(),
        "no conversion from Srgb to Bt709Linear: video cannot be encoded in a linear space, so \
         it can only be a source"
    );
}

#[test]
fn test_output_format_size_nv12() {
    // NV12: Y plane + interleaved UV at half resolution = 1.5 * pixel_count.
    assert_eq!(OutputFormat::NV12.output_size(8, 8), 96); // 64 * 1.5 = 96
    assert_eq!(OutputFormat::NV12.output_size(16, 16), 384); // 256 * 1.5 = 384
    assert_eq!(
        OutputFormat::NV12.output_size(1920, 1080),
        1920 * 1080 * 3 / 2
    );
}

#[test]
fn test_output_format_size_i420() {
    // I420: Y plane + U plane (quarter) + V plane (quarter) = 1.5 * pixel_count.
    assert_eq!(OutputFormat::I420.output_size(8, 8), 96);
    assert_eq!(OutputFormat::I420.output_size(16, 16), 384);
    assert_eq!(
        OutputFormat::I420.output_size(1920, 1080),
        1920 * 1080 * 3 / 2
    );
}

#[test]
fn test_output_format_size_yuv444() {
    // YUV444: Full resolution Y + U + V = 3 * pixel_count.
    assert_eq!(OutputFormat::YUV444.output_size(8, 8), 192); // 64 * 3 = 192
    assert_eq!(OutputFormat::YUV444.output_size(16, 16), 768); // 256 * 3 = 768
    assert_eq!(
        OutputFormat::YUV444.output_size(1920, 1080),
        1920 * 1080 * 3
    );
}

#[test]
fn test_output_format_size_standard_resolutions() {
    // Common video resolutions.
    let resolutions = [
        (320, 240),   // QVGA
        (640, 480),   // VGA
        (1280, 720),  // HD
        (1920, 1080), // Full HD
        (3840, 2160), // 4K
    ];

    for (width, height) in resolutions {
        let pixels = (width * height) as usize;

        // NV12 and I420 should be 1.5x pixels.
        assert_eq!(
            OutputFormat::NV12.output_size(width, height),
            pixels * 3 / 2
        );
        assert_eq!(
            OutputFormat::I420.output_size(width, height),
            pixels * 3 / 2
        );

        // YUV444 should be 3x pixels.
        assert_eq!(OutputFormat::YUV444.output_size(width, height), pixels * 3);
    }
}

#[test]
fn output_sizes_are_padded_to_four_bytes() {
    // 3x3: nine pixels.
    assert_eq!(OutputFormat::NV12.output_size(3, 3), 16); // 13 padded
    assert_eq!(OutputFormat::YUV444.output_size(3, 3), 32); // 12 + 18 = 30 padded
    assert_eq!(OutputFormat::P010.output_size(3, 3), 28); // 27 padded
    assert_eq!(OutputFormat::YUV444P10.output_size(3, 3), 56); // 20 + 36
    assert_eq!(OutputFormat::NV12.output_size(0, 0), 0);
}

#[test]
fn sizes_that_cannot_be_addressed_are_told() {
    assert!(OutputFormat::NV12.size_fits(65535, 65535));
    assert!(!OutputFormat::NV12.size_fits(65536, 65536));
    // Ten-bit luma takes twice the bytes.
    assert!(!OutputFormat::P010.size_fits(65535, 65535));
}

#[test]
fn test_output_format_enum_values() {
    // Verify enum values match shader expectations.
    assert_eq!(OutputFormat::NV12 as u32, 0);
    assert_eq!(OutputFormat::I420 as u32, 1);
    assert_eq!(OutputFormat::YUV444 as u32, 2);
    for format in [
        OutputFormat::NV12,
        OutputFormat::I420,
        OutputFormat::YUV444,
        OutputFormat::P010,
        OutputFormat::YUV444P10,
    ] {
        assert_eq!(format.code(), format as u32);
    }
}

#[test]
fn ten_bit_formats_take_two_bytes_a_sample() {
    for (format, bytes) in [
        (OutputFormat::NV12, 1),
        (OutputFormat::I420, 1),
        (OutputFormat::YUV444, 1),
        (OutputFormat::P010, 2),
        (OutputFormat::YUV444P10, 2),
    ] {
        assert_eq!(format.bytes_per_sample(), bytes);
        assert_eq!(format.is_10bit(), bytes == 2);
    }
}

#[test]
fn test_config_clone() {
    let config = ColorConverterConfig::new(
        1920,
        1080,
        InputFormat::BGRx,
        OutputFormat::NV12,
        ColorSpec::Srgb,
        ColorSpec::Srgb,
        ColorRange::Full,
    );

    let cloned = config.clone();
    assert_eq!(cloned.width, 1920);
    assert_eq!(cloned.height, 1080);
    assert_eq!(cloned.input_format, InputFormat::BGRx);
    assert_eq!(cloned.output_format, OutputFormat::NV12);
    assert_eq!(cloned.target, ColorSpec::Srgb);
    assert!(cloned.range.is_full());
}

#[test]
fn test_config_debug() {
    let config = ColorConverterConfig::new(
        640,
        480,
        InputFormat::RGBA,
        OutputFormat::I420,
        ColorSpec::Srgb,
        ColorSpec::Srgb,
        ColorRange::Full,
    );

    let debug_str = format!("{:?}", config);
    assert!(debug_str.contains("640"));
    assert!(debug_str.contains("480"));
    assert!(debug_str.contains("RGBA"));
    assert!(debug_str.contains("I420"));
}

fn converter(output_format: OutputFormat, width: u32, height: u32) -> ColorConverter {
    let config = ColorConverterConfig::new(
        width,
        height,
        InputFormat::RGBA,
        output_format,
        ColorSpec::Srgb,
        ColorSpec::Bt2020Pq,
        ColorRange::Full,
    );
    ColorConverter::new(config).expect("every source reaches PQ")
}

#[test]
fn a_converter_needs_a_reachable_target() {
    let refused = ColorConverter::new(config_from(
        ColorSpec::Bt709Linear,
        ColorSpec::Srgb,
        ColorRange::Full,
    ));
    assert_eq!(
        refused.err(),
        Some(PixelForgeError::InvalidInput(InvalidInput::NoConversion {
            source: ColorSpec::Bt709Linear,
            target: ColorSpec::Srgb,
        }))
    );
}

#[test]
fn a_refused_change_leaves_the_converter_untouched() {
    let mut converter =
        ColorConverter::new(config_for(ColorSpec::Srgb, ColorRange::Limited)).unwrap();
    assert!(converter.set_source(ColorSpec::Bt2020Pq).is_err());
    assert_eq!(converter.config().source, ColorSpec::Srgb);
    assert!(converter.set_target(ColorSpec::Bt709Linear).is_err());
    assert_eq!(converter.config().target, ColorSpec::Srgb);
    assert_eq!(converter.color_description(), ColorDescription::bt709());

    // To HDR anything goes, and then any source does.
    converter.set_target(ColorSpec::Bt2020Pq).unwrap();
    converter.set_source(ColorSpec::Bt709Linear).unwrap();
    converter.set_range(ColorRange::Full);
    assert_eq!(
        converter.color_description(),
        ColorDescription::bt2020_pq().with_full_range(true)
    );
    // Now SDR is out of reach.
    assert!(converter.set_target(ColorSpec::Srgb).is_err());
    assert_eq!(converter.config().source, ColorSpec::Bt709Linear);
}

#[test]
fn planes_are_copied_one_behind_the_other() {
    let region = |buffer_offset: u64, plane: u32, width: u32, height: u32| CopyRegion {
        buffer_offset,
        plane,
        width,
        height,
    };
    assert_eq!(
        converter(OutputFormat::NV12, 8, 6).build_buffer_to_image_copy_regions(),
        vec![region(0, 0, 8, 6), region(48, 1, 4, 3)]
    );
    assert_eq!(
        converter(OutputFormat::I420, 8, 6).build_buffer_to_image_copy_regions(),
        vec![region(0, 0, 8, 6), region(48, 1, 4, 3), region(60, 2, 4, 3)]
    );
    assert_eq!(
        converter(OutputFormat::YUV444, 3, 3).build_buffer_to_image_copy_regions(),
        vec![region(0, 0, 3, 3), region(12, 1, 3, 3)]
    );
    assert_eq!(
        converter(OutputFormat::P010, 8, 6).build_buffer_to_image_copy_regions(),
        vec![region(0, 0, 8, 6), region(96, 1, 4, 3)]
    );
    assert_eq!(
        converter(OutputFormat::YUV444P10, 3, 3).build_buffer_to_image_copy_regions(),
        vec![region(0, 0, 3, 3), region(20, 1, 3, 3)]
    );
}

#[test]
fn copies_stay_inside_the_output_buffer() {
    for format in [
        OutputFormat::NV12,
        OutputFormat::I420,
        OutputFormat::YUV444,
        OutputFormat::P010,
        OutputFormat::YUV444P10,
    ] {
        for (width, height) in [(1, 1), (2, 2), (3, 5), (7, 9), (64, 64), (1920, 1080)] {
            let size = format.output_size(width, height) as u64;
            let regions = converter(format, width, height).build_buffer_to_image_copy_regions();
            let mut free_from = 0;
            for region in regions {
                let interleaved = region.plane == 1 && format != OutputFormat::I420;
                let texel = format.bytes_per_sample() as u64 * if interleaved { 2 } else { 1 };
                let end = region.buffer_offset
                    + u64::from(region.width) * u64::from(region.height) * texel;
                assert!(region.buffer_offset >= free_from, "{format:?} {width}x{height}");
                assert!(end <= size, "{format:?} {width}x{height}");
                free_from = end;
            }
        }
    }
}

#[test]
fn a_conversion_is_planned_whole() {
    let plan = converter(OutputFormat::NV12, 1920, 1080)
        .convert(vk::ImageLayout::GENERAL.as_raw(), 3);
    assert_eq!(plan.output_size, 1920 * 1080 * 3 / 2);
    assert_eq!(plan.workgroups_x, 240);
    assert_eq!(plan.workgroups_y, 135);
    assert_eq!(
        plan.push_constants,
        [1920, 1080, 3, 0, 0, 3, 1, 203.0f32.to_bits()]
    );
    assert_eq!(plan.copy_regions.len(), 2);
    assert_eq!(
        plan.source_barrier.src_queue_family,
        vk::QUEUE_FAMILY_IGNORED
    );
    assert_eq!(
        plan.source_barrier.dst_queue_family,
        vk::QUEUE_FAMILY_IGNORED
    );
    assert_eq!(
        plan.source_barrier.src_access,
        (vk::AccessFlags::MEMORY_READ | vk::AccessFlags::MEMORY_WRITE).as_raw()
    );
}

#[test]
fn a_fresh_import_is_acquired() {
    let plan = converter(OutputFormat::NV12, 9, 16)
        .convert(vk::ImageLayout::UNDEFINED.as_raw(), 3);
    assert_eq!(
        plan.source_barrier.src_queue_family,
        vk::QUEUE_FAMILY_EXTERNAL
    );
    assert_eq!(plan.source_barrier.dst_queue_family, 3);
    assert_eq!(plan.source_barrier.src_access, 0);
    // One column of pixels beyond a workgroup takes another one.
    assert_eq!(plan.workgroups_x, 2);
    assert_eq!(plan.workgroups_y, 2);
}

#[test]
fn the_source_view_is_kept_for_its_image() {
    let mut cached = None;
    assert_eq!(
        source_view(&mut cached, 7),
        ViewStep::Create { stale: None }
    );
    cached = Some(CachedView { image: 7, view: 70 });
    assert_eq!(source_view(&mut cached, 7), ViewStep::Use(70));
    assert_eq!(
        source_view(&mut cached, 8),
        ViewStep::Create { stale: Some(70) }
    );
    assert_eq!(cached, None);
}

#[test]
fn a_device_without_push_descriptors_is_refused() {
    assert_eq!(check_device(true), Ok(()));
    let error = PixelForgeError::NoSuitableDevice(Lacking::PushDescriptor);
    assert_eq!(check_device(false), Err(error));
    assert_eq!(
        error.message(),
        "VK_KHR_push_descriptor is required but not enabled on this device"
    );
}

#[test]
fn shader_words_are_little_endian() {
    assert_eq!(
        get_spirv_code(&[0x03, 0x02, 0x23, 0x07, 0, 0, 1, 0]),
        vec![0x0723_0203, 0x0001_0000]
    );
    // What makes no whole word is left out.
    assert_eq!(get_spirv_code(&[1, 0, 0, 0, 9, 9]), vec![1]);
    assert_eq!(get_spirv_code(&[]), Vec::<u32>::new());
}
