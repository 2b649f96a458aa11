use filter_chain::calc_miplevel;
use filter_chain::filter_chain_d3d12_opt_t;
use filter_chain::frame_d3d12_opt_t;
use filter_chain::support_request;
use filter_chain::FilterChainError;
use filter_chain::ImageAllocator;
use filter_chain::ImageFormat;
use filter_chain::OwnedImage;
use filter_chain::f32_bits_of_u32;
use filter_chain::f32_recip_bits_of_u32;
use filter_chain::gl_u16_to_version;
use filter_chain::gl_version_from_parts;
use filter_chain::normalize_frame_direction;
use filter_chain::scale_axis;
use filter_chain::scale_size;
use filter_chain::FilterMode;
use filter_chain::GlVersion;
use filter_chain::InlineRingBuffer;
use filter_chain::MipFilterMode;
use filter_chain::RingBuffer;
use filter_chain::RuntimeParameters;
use filter_chain::SamplerSet;
use filter_chain::Scale2D;
use filter_chain::ScaleFactor;
use filter_chain::Scaling;
use filter_chain::Size;
use filter_chain::WrapMode;

fn half(num: u32, den: u32) -> ScaleFactor {
    ScaleFactor { num, den }
}

#[test]
fn miplevels_follow_log2() {
    assert_eq!(calc_miplevel(Size::new(0, 0)), 0);
    assert_eq!(calc_miplevel(Size::new(1, 1)), 1);
    assert_eq!(calc_miplevel(Size::new(4, 4)), 3);
    assert_eq!(calc_miplevel(Size::new(256, 128)), 9);
    assert_eq!(calc_miplevel(Size::new(1920, 1080)), 11);
    assert_eq!(calc_miplevel(Size::new(1, 1080)), 11);
    assert_eq!(calc_miplevel(Size::new(u32::MAX, 1)), 32);
}

#[test]
fn scale_rules_apply_per_axis() {
    let rule = Scale2D {
        x: Scaling::Source(half(2, 1)),
        y: Scaling::Viewport(half(1, 2)),
    };
    let out = scale_size(rule, Size::new(320, 240), Size::new(1920, 1080));
    assert_eq!(out, Size::new(640, 540));
}

#[test]
fn scale_absolute_ignores_inputs() {
    let rule = Scale2D {
        x: Scaling::Absolute(123),
        y: Scaling::Absolute(7),
    };
    let out = scale_size(rule, Size::new(320, 240), Size::new(1920, 1080));
    assert_eq!(out, Size::new(123, 7));
}

#[test]
fn scale_fraction_floors() {
    // floor(3 * 2 / 4) = 1
    assert_eq!(scale_axis(Scaling::Source(half(2, 4)), 3, 0), 1);
    // floor(7 * 1 / 2) = 3
    assert_eq!(scale_axis(Scaling::Source(half(1, 2)), 7, 0), 3);
}

#[test]
fn scale_zero_clamps_to_one() {
    assert_eq!(scale_axis(Scaling::Source(half(0, 1)), 640, 480), 1);
    assert_eq!(scale_axis(Scaling::Absolute(0), 640, 480), 1);
    assert_eq!(scale_axis(Scaling::Viewport(half(1, 1)), 640, 0), 1);
    let rule = Scale2D {
        x: Scaling::Source(half(0, 1)),
        y: Scaling::Source(half(0, 1)),
    };
    assert_eq!(scale_size(rule, Size::new(0, 0), Size::new(0, 0)), Size::new(1, 1));
}

#[test]
fn ring_buffer_wraps() {
    let mut ring: InlineRingBuffer<u32, 3> = InlineRingBuffer::new();
    *ring.current_mut() = 10;
    ring.next();
    *ring.current_mut() = 20;
    ring.next();
    *ring.current_mut() = 30;
    assert_eq!(*ring.current(), 30);
    ring.next();
    assert_eq!(*ring.current(), 10);
    assert_eq!(ring.items(), &[10, 20, 30]);
    ring.items_mut()[1] = 99;
    ring.next();
    assert_eq!(*ring.current(), 99);
}

#[test]
fn version_hints_map_to_versions() {
    assert_eq!(gl_u16_to_version(330), GlVersion::V3_30);
    assert_eq!(gl_u16_to_version(460), GlVersion::V4_60);
    assert_eq!(gl_u16_to_version(300), GlVersion::V1_30);
    assert_eq!(gl_u16_to_version(999), GlVersion::V1_50);
    assert_eq!(gl_version_from_parts(3, 3), GlVersion::V3_30);
    assert_eq!(gl_version_from_parts(4, 6), GlVersion::V4_60);
    assert_eq!(gl_version_from_parts(4, 0), GlVersion::V4_00);
    assert_eq!(gl_version_from_parts(2, 1), GlVersion::V1_50);
}

#[test]
fn frame_direction_normalizes_to_sign() {
    assert_eq!(normalize_frame_direction(1), 1);
    assert_eq!(normalize_frame_direction(-1), -1);
    assert_eq!(normalize_frame_direction(0), 1);
    assert_eq!(normalize_frame_direction(17), 1);
    assert_eq!(normalize_frame_direction(-42), -1);
    assert_eq!(normalize_frame_direction(i32::MIN), -1);
}

#[test]
fn sampler_cache_returns_stable_handles() {
    let set = SamplerSet::new(100);
    let a = set.get(
        WrapMode::ClampToEdge,
        FilterMode::Linear,
        FilterMode::Nearest,
        MipFilterMode::Unspecified,
    );
    let b = set.get(
        WrapMode::ClampToEdge,
        FilterMode::Linear,
        FilterMode::Nearest,
        MipFilterMode::Unspecified,
    );
    assert_eq!(a, b);
    let c = set.get(
        WrapMode::Repeat,
        FilterMode::Linear,
        FilterMode::Nearest,
        MipFilterMode::Unspecified,
    );
    assert_ne!(a, c);
    // 48 states, handles offset by the base.
    assert_eq!(
        set.get(
            WrapMode::ClampToBorder,
            FilterMode::Linear,
            FilterMode::Linear,
            MipFilterMode::Linear,
        ),
        100
    );
    assert_eq!(
        set.get(
            WrapMode::MirroredRepeat,
            FilterMode::Nearest,
            FilterMode::Nearest,
            MipFilterMode::Unspecified,
        ),
        147
    );
}

#[test]
fn parameters_read_back_writes() {
    let names = vec!["alpha".to_string(), "beta".to_string()];
    let defaults = vec![0x3F000000u32, 0u32];
    let mut params = RuntimeParameters::new(names, defaults, 3);
    assert_eq!(params.get("alpha"), Some(0x3F000000));
    assert_eq!(params.get("beta"), Some(0));
    assert_eq!(params.get("gamma"), None);
    assert!(params.set("beta", 0x3F800000).is_ok());
    assert_eq!(params.get("beta"), Some(0x3F800000));
    assert!(params.set("gamma", 1).is_err());
    assert_eq!(params.get("gamma"), None);
}

#[test]
fn pass_count_clamps() {
    let mut params = RuntimeParameters::new(Vec::new(), Vec::new(), 3);
    assert_eq!(params.get_enabled_pass_count(), 3);
    params.set_enabled_pass_count(2);
    assert_eq!(params.get_enabled_pass_count(), 2);
    params.set_enabled_pass_count(10);
    assert_eq!(params.get_enabled_pass_count(), 3);
    params.set_enabled_pass_count(0);
    assert_eq!(params.get_enabled_pass_count(), 0);
}

#[test]
fn integer_encodings_match_hardware_floats() {
    let cases: [u32; 16] = [
        0,
        1,
        2,
        3,
        4,
        5,
        7,
        255,
        256,
        1920,
        16384,
        16777215,
        16777216,
        16777217,
        4000000000,
        u32::MAX,
    ];
    for &x in cases.iter() {
        assert_eq!(f32_bits_of_u32(x), (x as f32).to_bits(), "encoding {}", x);
    }
    assert_eq!(f32_bits_of_u32(0), 0);
    assert_eq!(f32_bits_of_u32(1), 0x3F800000);
    assert_eq!(f32_bits_of_u32(2), 0x40000000);
}

#[test]
fn option_records_select_options() {
    let f = frame_d3d12_opt_t { version: 1, clear_history: true, frame_direction: -1 };
    let opts = f.to_options();
    assert!(opts.clear_history);
    assert_eq!(opts.frame_direction, -1);
    let c = filter_chain_d3d12_opt_t { version: 1, force_hlsl_pipeline: true, force_no_mipmaps: true };
    let copts = c.to_options();
    assert!(copts.force_no_mipmaps);
    assert!(copts.force_hlsl_pipeline);
    assert!(!copts.disable_cache);
}

#[test]
fn format_support_request_asks_for_mip_storage_only_when_mipped() {
    let plain = support_request(ImageFormat::R8G8B8A8Unorm, false);
    assert!(plain.sample && plain.render_target);
    assert!(!plain.mip && !plain.storage);
    let mipped = support_request(ImageFormat::R8G8B8A8Srgb, true);
    assert!(mipped.mip && mipped.storage);
    assert_eq!(mipped.format, ImageFormat::R8G8B8A8Srgb);
}

#[test]
fn owned_images_recreate_only_on_descriptor_change() {
    let mut alloc = ImageAllocator::new();
    let mut img = OwnedImage::new(
        &mut alloc,
        Size::new(1, 1),
        ImageFormat::R8G8B8A8Unorm,
        false,
    )
    .expect("image allocates");
    let first_id = img.id;
    let rule = Scale2D {
        x: Scaling::Source(half(2, 1)),
        y: Scaling::Source(half(2, 1)),
    };
    let sz = img
        .scale(
            &mut alloc,
            rule,
            ImageFormat::R8G8B8A8Unorm,
            &Size::new(1920, 1080),
            &Size::new(4, 4),
            false,
        )
        .expect("resize allocates");
    assert_eq!(sz, Size::new(8, 8));
    assert_eq!(img.size, sz);
    assert_ne!(img.id, first_id);
    // A matching request keeps the image, identity included.
    let id_after_resize = img.id;
    let sz2 = img
        .scale(
            &mut alloc,
            rule,
            ImageFormat::R8G8B8A8Unorm,
            &Size::new(1920, 1080),
            &Size::new(4, 4),
            false,
        )
        .expect("no allocation needed");
    assert_eq!(sz2, sz);
    assert_eq!(img.id, id_after_resize);
    // Requesting a mip chain re-creates it with the full chain.
    img.scale(
        &mut alloc,
        rule,
        ImageFormat::R8G8B8A8Unorm,
        &Size::new(1920, 1080),
        &Size::new(4, 4),
        true,
    )
    .expect("mip resize allocates");
    assert_ne!(img.id, id_after_resize);
    assert_eq!(img.max_mipmap, 4);
}

#[test]
fn error_kinds_have_messages() {
    assert_eq!(FilterChainError::UnknownParameter.message(), "unknown runtime parameter");
    assert_eq!(
        FilterChainError::InvalidBinding.message(),
        "shader requested an unavailable semantic"
    );
}

#[test]
fn reciprocal_encodings_match_hardware_floats() {
    // Exact for every extent a filter chain meets.
    for x in 1u32..=4096 {
        assert_eq!(
            f32_recip_bits_of_u32(x),
            (1.0f32 / (x as f32)).to_bits(),
            "reciprocal {}",
            x
        );
    }
    // Powers of two stay exact at any magnitude.
    for k in 0u32..32 {
        let x = 1u32 << k;
        assert_eq!(f32_recip_bits_of_u32(x), (1.0f32 / (x as f32)).to_bits());
    }
    assert_eq!(f32_recip_bits_of_u32(0), 0);
}
