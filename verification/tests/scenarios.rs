use filter_chain::FilterChain;
use filter_chain::FilterChainError;
use filter_chain::FilterMode;
use filter_chain::FrameCmd;
use filter_chain::FrameOptions;
use filter_chain::ImageFormat;
use filter_chain::ImageRef;
use filter_chain::ParameterConfig;
use filter_chain::PassConfig;
use filter_chain::PassReflection;
use filter_chain::Preset;
use filter_chain::Scale2D;
use filter_chain::ScaleFactor;
use filter_chain::Scaling;
use filter_chain::Size;
use filter_chain::TextureConfig;
use filter_chain::TextureSemantic;
use filter_chain::TextureSlotReflection;
use filter_chain::UniformMemberReflection;
use filter_chain::Viewport;
use filter_chain::WrapMode;

/// How the software executor interprets each pass's pipeline.
#[derive(Clone, Copy)]
enum PassOp {
    /// Write the `Source` sample unchanged.
    Passthrough,
    /// Write the `Source` sample with the red channel zeroed.
    ZeroRed,
    /// Write the `PassOutput0` sample with the blue channel zeroed.
    SampleOutput0ZeroBlue,
    /// Write the `OriginalHistory1` sample unchanged.
    History1,
    /// Fill with `(a, a, a, 1)` where `a` is the f32 at byte 0 of the UBO.
    AlphaFill,
    /// Write the `PassFeedback0` sample unchanged.
    SampleFeedback0,
}

#[derive(Clone)]
struct Image {
    size: Size,
    px: Vec<[f32; 4]>,
}

impl Image {
    fn solid(w: u32, h: u32, c: [f32; 4]) -> Image {
        Image { size: Size { width: w, height: h }, px: vec![c; (w * h) as usize] }
    }

    fn checker(w: u32, h: u32) -> Image {
        let mut px = Vec::new();
        for y in 0..h {
            for x in 0..w {
                if (x + y) % 2 == 0 {
                    px.push([1.0, 1.0, 1.0, 1.0]);
                } else {
                    px.push([0.0, 0.0, 0.25, 1.0]);
                }
            }
        }
        Image { size: Size { width: w, height: h }, px }
    }

    fn sample_nearest(&self, u: f32, v: f32) -> [f32; 4] {
        let x = ((u * self.size.width as f32) as i64).clamp(0, self.size.width as i64 - 1);
        let y = ((v * self.size.height as f32) as i64).clamp(0, self.size.height as i64 - 1);
        self.px[(y as u32 * self.size.width + x as u32) as usize]
    }
}

/// A toy device: it owns images by identity and executes the recorded
/// commands the way a GPU backend would.
struct Executor {
    images: Vec<(u64, Image)>,
    ops: Vec<PassOp>,
}

impl Executor {
    fn new(ops: Vec<PassOp>) -> Executor {
        Executor { images: Vec::new(), ops }
    }

    fn put(&mut self, id: u64, img: Image) {
        for e in self.images.iter_mut() {
            if e.0 == id {
                e.1 = img;
                return;
            }
        }
        self.images.push((id, img));
    }

    fn get(&self, id: u64) -> Image {
        for e in self.images.iter() {
            if e.0 == id {
                return e.1.clone();
            }
        }
        Image::solid(1, 1, [0.0, 0.0, 0.0, 0.0])
    }

    fn run(&mut self, cmds: &[FrameCmd]) {
        for c in cmds.iter() {
            match c {
                FrameCmd::Clear { image } => {
                    self.put(
                        image.id,
                        Image::solid(image.size.width, image.size.height, [0.0, 0.0, 0.0, 0.0]),
                    );
                }
                FrameCmd::Transition { .. } => {}
                FrameCmd::CopyImage { src, dst } => {
                    let s = self.get(src.id);
                    self.put(dst.id, s);
                }
                FrameCmd::Blit { src, dst, out_size } => {
                    let s = self.get(src.id);
                    let mut out = Image::solid(out_size.width, out_size.height, [0.0; 4]);
                    for y in 0..out_size.height {
                        for x in 0..out_size.width {
                            let u = (x as f32 + 0.5) / out_size.width as f32;
                            let v = (y as f32 + 0.5) / out_size.height as f32;
                            out.px[(y * out_size.width + x) as usize] = s.sample_nearest(u, v);
                        }
                    }
                    self.put(dst.id, out);
                }
                FrameCmd::GenerateMipmaps { .. } => {}
                FrameCmd::Draw { pass, target, out_size, textures, ubo, .. } => {
                    let op = self.ops[*pass as usize];
                    let mut bound: Vec<(TextureSemantic, Image)> = Vec::new();
                    for t in textures.iter() {
                        bound.push((t.semantic, self.get(t.image.id)));
                    }
                    let find = |sem: TextureSemantic| -> Image {
                        for (s, img) in bound.iter() {
                            if *s == sem {
                                return img.clone();
                            }
                        }
                        Image::solid(1, 1, [0.0; 4])
                    };
                    let mut out = Image::solid(out_size.width, out_size.height, [0.0; 4]);
                    for y in 0..out_size.height {
                        for x in 0..out_size.width {
                            let u = (x as f32 + 0.5) / out_size.width as f32;
                            let v = (y as f32 + 0.5) / out_size.height as f32;
                            let c = match op {
                                PassOp::Passthrough => {
                                    find(TextureSemantic::Source).sample_nearest(u, v)
                                }
                                PassOp::ZeroRed => {
                                    let mut c = find(TextureSemantic::Source).sample_nearest(u, v);
                                    c[0] = 0.0;
                                    c
                                }
                                PassOp::SampleOutput0ZeroBlue => {
                                    let mut c = find(TextureSemantic::PassOutput(0))
                                        .sample_nearest(u, v);
                                    c[2] = 0.0;
                                    c
                                }
                                PassOp::History1 => find(TextureSemantic::OriginalHistory(1))
                                    .sample_nearest(u, v),
                                PassOp::SampleFeedback0 => find(TextureSemantic::PassFeedback(0))
                                    .sample_nearest(u, v),
                                PassOp::AlphaFill => {
                                    let bits = u32::from_le_bytes([ubo[0], ubo[1], ubo[2], ubo[3]]);
                                    let a = f32::from_bits(bits);
                                    [a, a, a, 1.0]
                                }
                            };
                            out.px[(y * out_size.width + x) as usize] = c;
                        }
                    }
                    self.put(target.id, out);
                }
            }
        }
    }
}

fn source_identity() -> Scale2D {
    Scale2D {
        x: Scaling::Source(ScaleFactor { num: 1, den: 1 }),
        y: Scaling::Source(ScaleFactor { num: 1, den: 1 }),
    }
}

fn pass(scaling: Scale2D) -> PassConfig {
    PassConfig {
        scaling,
        format: ImageFormat::R8G8B8A8Unorm,
        wrap_mode: WrapMode::ClampToEdge,
        filter: FilterMode::Nearest,
        mipmap: false,
        alias: None,
        frame_count_mod: 0,
    }
}

fn refl_with_textures(names: &[&str]) -> PassReflection {
    let mut textures = Vec::new();
    let mut i = 0u32;
    for n in names.iter() {
        textures.push(TextureSlotReflection { name: n.to_string(), binding: i });
        i += 1;
    }
    PassReflection {
        ubo_size: 0,
        ubo_members: Vec::new(),
        push_size: 0,
        push_members: Vec::new(),
        textures,
    }
}

fn image_ref_of(id: u64, img: &Image) -> ImageRef {
    ImageRef { id, size: img.size, format: ImageFormat::R8G8B8A8Unorm, levels: 1 }
}

fn viewport(w: u32, h: u32) -> Viewport {
    Viewport { x: 0, y: 0, width: w, height: h }
}

const INPUT_ID: u64 = 1_000_000;
const OUTPUT_ID: u64 = 2_000_000;

#[test]
fn identity_pass_preserves_pixels() {
    let preset = Preset {
        passes: vec![pass(source_identity())],
        textures: Vec::new(),
        parameters: Vec::new(),
    };
    let refl = vec![refl_with_textures(&["Source"])];
    let mut chain = FilterChain::create(preset, refl, Vec::new(), None).expect("chain builds");
    let input = Image::checker(4, 4);
    let mut ex = Executor::new(vec![PassOp::Passthrough]);
    ex.put(INPUT_ID, input.clone());
    ex.put(OUTPUT_ID, Image::solid(4, 4, [0.5; 4]));
    let out_ref = image_ref_of(OUTPUT_ID, &ex.get(OUTPUT_ID));
    let cmds = chain
        .frame(image_ref_of(INPUT_ID, &input), &viewport(4, 4), out_ref, 0, None, None)
        .expect("frame records");
    ex.run(&cmds);
    let out = ex.get(OUTPUT_ID);
    assert_eq!(out.size, input.size);
    assert_eq!(out.px, input.px);
}

#[test]
fn disabled_chain_blits_input_to_output() {
    let preset = Preset {
        passes: vec![pass(source_identity())],
        textures: Vec::new(),
        parameters: Vec::new(),
    };
    let refl = vec![refl_with_textures(&["Source"])];
    let mut chain = FilterChain::create(preset, refl, Vec::new(), None).expect("chain builds");
    chain.set_enabled_pass_count(0);
    assert_eq!(chain.get_enabled_pass_count(), 0);
    let input = Image::checker(4, 4);
    let mut ex = Executor::new(vec![PassOp::Passthrough]);
    ex.put(INPUT_ID, input.clone());
    let out_ref = image_ref_of(OUTPUT_ID, &Image::solid(4, 4, [0.0; 4]));
    let cmds = chain
        .frame(image_ref_of(INPUT_ID, &input), &viewport(4, 4), out_ref, 0, None, None)
        .expect("frame records");
    assert_eq!(cmds.len(), 1);
    assert!(matches!(cmds[0], FrameCmd::Blit { .. }));
    ex.run(&cmds);
    let out = ex.get(OUTPUT_ID);
    assert_eq!(out.px, input.px);
}

#[test]
fn scale_pass_upscales_to_viewport() {
    let double = Scale2D {
        x: Scaling::Source(ScaleFactor { num: 2, den: 1 }),
        y: Scaling::Source(ScaleFactor { num: 2, den: 1 }),
    };
    let preset = Preset {
        passes: vec![pass(double)],
        textures: Vec::new(),
        parameters: Vec::new(),
    };
    let refl = vec![refl_with_textures(&["Source"])];
    let mut chain = FilterChain::create(preset, refl, Vec::new(), None).expect("chain builds");
    let mut input = Image::solid(2, 2, [0.0; 4]);
    input.px = vec![
        [1.0, 0.0, 0.0, 1.0],
        [0.0, 1.0, 0.0, 1.0],
        [0.0, 0.0, 1.0, 1.0],
        [1.0, 1.0, 1.0, 1.0],
    ];
    let mut ex = Executor::new(vec![PassOp::Passthrough]);
    ex.put(INPUT_ID, input.clone());
    let out_ref = image_ref_of(OUTPUT_ID, &Image::solid(4, 4, [0.0; 4]));
    let cmds = chain
        .frame(image_ref_of(INPUT_ID, &input), &viewport(4, 4), out_ref, 0, None, None)
        .expect("frame records");
    // The single (final) pass draws straight onto the viewport extent.
    let mut saw_draw = false;
    for c in cmds.iter() {
        if let FrameCmd::Draw { out_size, .. } = c {
            saw_draw = true;
            assert_eq!(*out_size, Size { width: 4, height: 4 });
        }
    }
    assert!(saw_draw);
    ex.run(&cmds);
    let out = ex.get(OUTPUT_ID);
    // Nearest upscale: each input texel covers a 2x2 block.
    assert_eq!(out.px[0], [1.0, 0.0, 0.0, 1.0]);
    assert_eq!(out.px[1], [1.0, 0.0, 0.0, 1.0]);
    assert_eq!(out.px[2], [0.0, 1.0, 0.0, 1.0]);
    assert_eq!(out.px[5], [1.0, 0.0, 0.0, 1.0]);
    assert_eq!(out.px[15], [1.0, 1.0, 1.0, 1.0]);
}

#[test]
fn two_pass_chain_composes_passes() {
    let preset = Preset {
        passes: vec![pass(source_identity()), pass(source_identity())],
        textures: Vec::new(),
        parameters: Vec::new(),
    };
    let refl = vec![
        refl_with_textures(&["Source"]),
        refl_with_textures(&["PassOutput0"]),
    ];
    let mut chain = FilterChain::create(preset, refl, Vec::new(), None).expect("chain builds");
    let input = Image::solid(4, 4, [1.0, 1.0, 1.0, 1.0]);
    let mut ex = Executor::new(vec![PassOp::ZeroRed, PassOp::SampleOutput0ZeroBlue]);
    ex.put(INPUT_ID, input.clone());
    let out_ref = image_ref_of(OUTPUT_ID, &Image::solid(4, 4, [0.0; 4]));
    let cmds = chain
        .frame(image_ref_of(INPUT_ID, &input), &viewport(4, 4), out_ref, 0, None, None)
        .expect("frame records");
    ex.run(&cmds);
    let out = ex.get(OUTPUT_ID);
    for p in out.px.iter() {
        assert_eq!(*p, [0.0, 1.0, 0.0, 1.0]);
    }
}

#[test]
fn history_pass_sees_previous_frame() {
    let preset = Preset {
        passes: vec![pass(source_identity())],
        textures: Vec::new(),
        parameters: Vec::new(),
    };
    let refl = vec![refl_with_textures(&["OriginalHistory1"])];
    let mut chain = FilterChain::create(preset, refl, Vec::new(), None).expect("chain builds");
    let a = Image::solid(4, 4, [1.0, 0.0, 0.0, 1.0]);
    let b = Image::solid(4, 4, [0.0, 1.0, 0.0, 1.0]);
    let mut ex = Executor::new(vec![PassOp::History1]);
    let out_ref = image_ref_of(OUTPUT_ID, &Image::solid(4, 4, [0.0; 4]));
    ex.put(INPUT_ID, a.clone());
    let cmds0 = chain
        .frame(image_ref_of(INPUT_ID, &a), &viewport(4, 4), out_ref, 0, None, None)
        .expect("frame 0 records");
    ex.run(&cmds0);
    ex.put(INPUT_ID, b.clone());
    let cmds1 = chain
        .frame(image_ref_of(INPUT_ID, &b), &viewport(4, 4), out_ref, 1, None, None)
        .expect("frame 1 records");
    ex.run(&cmds1);
    let out = ex.get(OUTPUT_ID);
    // On frame 1 the shader sampling OriginalHistory1 must see frame 0's input.
    assert_eq!(out.px, a.px);
}

#[test]
fn parameter_sweep_is_observed_next_frame() {
    let preset = Preset {
        passes: vec![pass(source_identity())],
        textures: Vec::new(),
        parameters: vec![ParameterConfig { name: "alpha".to_string(), initial: 0 }],
    };
    let refl = vec![PassReflection {
        ubo_size: 16,
        ubo_members: vec![UniformMemberReflection {
            name: "alpha".to_string(),
            offset: 0,
            size: 4,
        }],
        push_size: 0,
        push_members: Vec::new(),
        textures: vec![TextureSlotReflection { name: "Source".to_string(), binding: 0 }],
    }];
    let mut chain = FilterChain::create(preset, refl, Vec::new(), None).expect("chain builds");
    let input = Image::solid(2, 2, [1.0; 4]);
    let mut ex = Executor::new(vec![PassOp::AlphaFill]);
    ex.put(INPUT_ID, input.clone());
    let out_ref = image_ref_of(OUTPUT_ID, &Image::solid(2, 2, [0.0; 4]));

    chain.set_parameter("alpha", 0.25f32.to_bits()).expect("alpha exists");
    let cmds = chain
        .frame(image_ref_of(INPUT_ID, &input), &viewport(2, 2), out_ref, 0, None, None)
        .expect("frame records");
    ex.run(&cmds);
    assert_eq!(ex.get(OUTPUT_ID).px[0], [0.25, 0.25, 0.25, 1.0]);

    chain.set_parameter("alpha", 0.75f32.to_bits()).expect("alpha exists");
    let cmds = chain
        .frame(image_ref_of(INPUT_ID, &input), &viewport(2, 2), out_ref, 1, None, None)
        .expect("frame records");
    ex.run(&cmds);
    assert_eq!(ex.get(OUTPUT_ID).px[0], [0.75, 0.75, 0.75, 1.0]);

    assert_eq!(chain.get_parameter("alpha"), Some(0.75f32.to_bits()));
    assert_eq!(
        chain.set_parameter("beta", 0),
        Err(FilterChainError::UnknownParameter)
    );
}

#[test]
fn empty_viewport_is_rejected_and_chain_survives() {
    let preset = Preset {
        passes: vec![pass(source_identity())],
        textures: Vec::new(),
        parameters: Vec::new(),
    };
    let refl = vec![refl_with_textures(&["Source"])];
    let mut chain = FilterChain::create(preset, refl, Vec::new(), None).expect("chain builds");
    let input = Image::checker(4, 4);
    let out_ref = image_ref_of(OUTPUT_ID, &Image::solid(4, 4, [0.0; 4]));
    let r = chain.frame(image_ref_of(INPUT_ID, &input), &viewport(0, 0), out_ref, 0, None, None);
    assert_eq!(r, Err(FilterChainError::InvalidParameter));
    // The chain is untouched and the next frame still records.
    let r2 = chain.frame(image_ref_of(INPUT_ID, &input), &viewport(4, 4), out_ref, 0, None, None);
    assert!(r2.is_ok());
}

#[test]
fn no_history_reference_allocates_no_ring() {
    let preset = Preset {
        passes: vec![pass(source_identity())],
        textures: Vec::new(),
        parameters: Vec::new(),
    };
    let refl = vec![refl_with_textures(&["Source"])];
    let mut chain = FilterChain::create(preset, refl, Vec::new(), None).expect("chain builds");
    let input = Image::checker(4, 4);
    let out_ref = image_ref_of(OUTPUT_ID, &Image::solid(4, 4, [0.0; 4]));
    let cmds = chain
        .frame(image_ref_of(INPUT_ID, &input), &viewport(4, 4), out_ref, 0, None, None)
        .expect("frame records");
    // No ring: nothing is copied at frame time.
    for c in cmds.iter() {
        assert!(!matches!(c, FrameCmd::CopyImage { .. }));
    }
}

#[test]
fn feedback_pass_sees_previous_frame_output() {
    // Pass 0 copies the frame's input; pass 1 samples pass 0's
    // previous-frame output. On frame 1 that must be frame 0's input.
    let preset = Preset {
        passes: vec![pass(source_identity()), pass(source_identity())],
        textures: Vec::new(),
        parameters: Vec::new(),
    };
    let refl = vec![
        refl_with_textures(&["Source"]),
        refl_with_textures(&["PassFeedback0"]),
    ];
    let mut chain = FilterChain::create(preset, refl, Vec::new(), None).expect("chain builds");
    let a = Image::solid(4, 4, [1.0, 0.0, 0.0, 1.0]);
    let b = Image::solid(4, 4, [0.0, 1.0, 0.0, 1.0]);
    let mut ex = Executor::new(vec![PassOp::Passthrough, PassOp::SampleFeedback0]);
    let out_ref = image_ref_of(OUTPUT_ID, &Image::solid(4, 4, [0.0; 4]));
    ex.put(INPUT_ID, a.clone());
    let cmds0 = chain
        .frame(image_ref_of(INPUT_ID, &a), &viewport(4, 4), out_ref, 0, None, None)
        .expect("frame 0 records");
    ex.run(&cmds0);
    ex.put(INPUT_ID, b.clone());
    let cmds1 = chain
        .frame(image_ref_of(INPUT_ID, &b), &viewport(4, 4), out_ref, 1, None, None)
        .expect("frame 1 records");
    ex.run(&cmds1);
    let out = ex.get(OUTPUT_ID);
    assert_eq!(out.px, a.px);
}

#[test]
fn clear_history_zeroes_the_ring() {
    let preset = Preset {
        passes: vec![pass(source_identity())],
        textures: Vec::new(),
        parameters: Vec::new(),
    };
    let refl = vec![refl_with_textures(&["OriginalHistory1"])];
    let mut chain = FilterChain::create(preset, refl, Vec::new(), None).expect("chain builds");
    let a = Image::solid(4, 4, [1.0, 0.0, 0.0, 1.0]);
    let b = Image::solid(4, 4, [0.0, 1.0, 0.0, 1.0]);
    let mut ex = Executor::new(vec![PassOp::History1]);
    let out_ref = image_ref_of(OUTPUT_ID, &Image::solid(4, 4, [0.0; 4]));
    ex.put(INPUT_ID, a.clone());
    let cmds0 = chain
        .frame(image_ref_of(INPUT_ID, &a), &viewport(4, 4), out_ref, 0, None, None)
        .expect("frame 0 records");
    ex.run(&cmds0);
    // Frame 1 asks for a cleared ring: the history sample must be zero,
    // not frame 0's input.
    ex.put(INPUT_ID, b.clone());
    let opts = FrameOptions { clear_history: true, frame_direction: 1 };
    let cmds1 = chain
        .frame(image_ref_of(INPUT_ID, &b), &viewport(4, 4), out_ref, 1, None, Some(opts))
        .expect("frame 1 records");
    ex.run(&cmds1);
    let out = ex.get(OUTPUT_ID);
    for p in out.px.iter() {
        assert_eq!(*p, [0.0, 0.0, 0.0, 0.0]);
    }
}

#[test]
fn lut_plans_follow_texture_configs() {
    let preset = Preset {
        passes: vec![pass(source_identity())],
        textures: vec![
            TextureConfig {
                name: "grain".to_string(),
                filter: FilterMode::Linear,
                wrap_mode: WrapMode::Repeat,
                mipmap: true,
            },
            TextureConfig {
                name: "palette".to_string(),
                filter: FilterMode::Nearest,
                wrap_mode: WrapMode::ClampToEdge,
                mipmap: false,
            },
        ],
        parameters: Vec::new(),
    };
    let refl = vec![refl_with_textures(&["Source"])];
    let sizes = vec![Size::new(64, 64), Size::new(256, 1)];
    let chain = FilterChain::create(preset, refl, sizes, None).expect("chain builds");
    let plans = chain.lut_plans();
    assert_eq!(plans.len(), 2);
    assert_eq!(plans[0].image.size, Size::new(64, 64));
    // Full mip chain for a mipmapped 64x64 lookup texture.
    assert_eq!(plans[0].image.levels, 7);
    assert_eq!(plans[0].wrap_mode, WrapMode::Repeat);
    assert_eq!(plans[1].image.size, Size::new(256, 1));
    assert_eq!(plans[1].image.levels, 1);
    assert_eq!(plans[1].filter, FilterMode::Nearest);
    assert_ne!(plans[0].image.id, plans[1].image.id);
}

#[test]
fn frame_count_uses_modulus_or_raw_index() {
    let mut wrapped = pass(source_identity());
    wrapped.frame_count_mod = 3;
    let preset = Preset {
        passes: vec![wrapped],
        textures: Vec::new(),
        parameters: Vec::new(),
    };
    let refl = vec![PassReflection {
        ubo_size: 16,
        ubo_members: vec![
            UniformMemberReflection { name: "FrameCount".to_string(), offset: 0, size: 4 },
            UniformMemberReflection { name: "FrameDirection".to_string(), offset: 4, size: 4 },
        ],
        push_size: 0,
        push_members: Vec::new(),
        textures: vec![TextureSlotReflection { name: "Source".to_string(), binding: 0 }],
    }];
    let mut chain = FilterChain::create(preset, refl, Vec::new(), None).expect("chain builds");
    let input = Image::solid(2, 2, [1.0; 4]);
    let out_ref = image_ref_of(OUTPUT_ID, &Image::solid(2, 2, [0.0; 4]));
    let opts = FrameOptions { clear_history: false, frame_direction: -7 };
    let cmds = chain
        .frame(
            image_ref_of(INPUT_ID, &input),
            &viewport(2, 2),
            out_ref,
            7,
            None,
            Some(opts),
        )
        .expect("frame records");
    let mut checked = false;
    for c in cmds.iter() {
        if let FrameCmd::Draw { ubo, .. } = c {
            // 7 mod 3 = 1; any negative direction request becomes -1.
            assert_eq!(u32::from_le_bytes([ubo[0], ubo[1], ubo[2], ubo[3]]), 1);
            assert_eq!(
                i32::from_le_bytes([ubo[4], ubo[5], ubo[6], ubo[7]]),
                -1
            );
            checked = true;
        }
    }
    assert!(checked);
}
