use filter_chain::bind_reflection;
use filter_chain::builtin_texture;
use filter_chain::resolve_texture;
use filter_chain::resolve_uniform;
use filter_chain::Alias;
use filter_chain::BindingContext;
use filter_chain::FilterChainError;
use filter_chain::PassReflection;
use filter_chain::TextureSemantic;
use filter_chain::TextureSlotReflection;
use filter_chain::UniformBlock;
use filter_chain::UniformMemberReflection;
use filter_chain::UniformSemantic;

fn member(name: &str, offset: u32, size: u32) -> UniformMemberReflection {
    UniformMemberReflection { name: name.to_string(), offset, size }
}

fn slot(name: &str, binding: u32) -> TextureSlotReflection {
    TextureSlotReflection { name: name.to_string(), binding }
}

fn ctx() -> BindingContext {
    BindingContext {
        pass_index: 1,
        total_passes: 2,
        aliases: vec![Alias { name: "bloom".to_string(), pass: 0 }],
        lut_names: vec!["grain".to_string()],
        param_names: vec!["alpha".to_string()],
    }
}

#[test]
fn builtin_texture_names_parse() {
    assert_eq!(builtin_texture("Original"), Some(TextureSemantic::Original));
    assert_eq!(builtin_texture("Source"), Some(TextureSemantic::Source));
    assert_eq!(
        builtin_texture("OriginalHistory3"),
        Some(TextureSemantic::OriginalHistory(3))
    );
    assert_eq!(
        builtin_texture("PassOutput0"),
        Some(TextureSemantic::PassOutput(0))
    );
    assert_eq!(
        builtin_texture("PassFeedback12"),
        Some(TextureSemantic::PassFeedback(12))
    );
    assert_eq!(builtin_texture("OriginalHistory"), None);
    assert_eq!(builtin_texture("PassOutputx"), None);
    assert_eq!(builtin_texture("original"), None);
    assert_eq!(
        builtin_texture("OriginalHistory007"),
        Some(TextureSemantic::OriginalHistory(7))
    );
    assert_eq!(builtin_texture("OriginalHistory99999999999999999999"), None);
}

#[test]
fn texture_resolution_prefers_builtins_then_aliases_then_luts() {
    let c = ctx();
    assert_eq!(
        resolve_texture("Source", &c.aliases, &c.lut_names),
        Some(TextureSemantic::Source)
    );
    assert_eq!(
        resolve_texture("bloom", &c.aliases, &c.lut_names),
        Some(TextureSemantic::PassOutput(0))
    );
    assert_eq!(
        resolve_texture("grain", &c.aliases, &c.lut_names),
        Some(TextureSemantic::User(0))
    );
    assert_eq!(resolve_texture("missing", &c.aliases, &c.lut_names), None);
}

#[test]
fn uniform_resolution_handles_size_companions_and_parameters() {
    let c = ctx();
    assert_eq!(
        resolve_uniform("MVP", &c.aliases, &c.lut_names, &c.param_names),
        Some(UniformSemantic::Mvp)
    );
    assert_eq!(
        resolve_uniform("OutputSize", &c.aliases, &c.lut_names, &c.param_names),
        Some(UniformSemantic::OutputSize)
    );
    assert_eq!(
        resolve_uniform("FinalViewportSize", &c.aliases, &c.lut_names, &c.param_names),
        Some(UniformSemantic::FinalViewportSize)
    );
    assert_eq!(
        resolve_uniform("FrameCount", &c.aliases, &c.lut_names, &c.param_names),
        Some(UniformSemantic::FrameCount)
    );
    assert_eq!(
        resolve_uniform("FrameDirection", &c.aliases, &c.lut_names, &c.param_names),
        Some(UniformSemantic::FrameDirection)
    );
    assert_eq!(
        resolve_uniform("SourceSize", &c.aliases, &c.lut_names, &c.param_names),
        Some(UniformSemantic::TextureSize(TextureSemantic::Source))
    );
    assert_eq!(
        resolve_uniform("OriginalHistory2Size", &c.aliases, &c.lut_names, &c.param_names),
        Some(UniformSemantic::TextureSize(TextureSemantic::OriginalHistory(2)))
    );
    assert_eq!(
        resolve_uniform("bloomSize", &c.aliases, &c.lut_names, &c.param_names),
        Some(UniformSemantic::TextureSize(TextureSemantic::PassOutput(0)))
    );
    assert_eq!(
        resolve_uniform("grainSize", &c.aliases, &c.lut_names, &c.param_names),
        Some(UniformSemantic::TextureSize(TextureSemantic::User(0)))
    );
    assert_eq!(
        resolve_uniform("alpha", &c.aliases, &c.lut_names, &c.param_names),
        Some(UniformSemantic::Parameter(0))
    );
    assert_eq!(
        resolve_uniform("beta", &c.aliases, &c.lut_names, &c.param_names),
        None
    );
}

#[test]
fn binder_builds_table_in_reflection_order() {
    let refl = PassReflection {
        ubo_size: 96,
        ubo_members: vec![member("MVP", 0, 64), member("SourceSize", 64, 16), member("alpha", 80, 4)],
        push_size: 8,
        push_members: vec![member("FrameCount", 0, 4), member("FrameDirection", 4, 4)],
        textures: vec![slot("Source", 0), slot("grain", 1)],
    };
    let c = ctx();
    let table = bind_reflection(&refl, &c).expect("table binds");
    assert_eq!(table.uniforms.len(), 5);
    assert_eq!(table.uniforms[0].semantic, UniformSemantic::Mvp);
    assert_eq!(table.uniforms[0].block, UniformBlock::Ubo);
    assert_eq!(table.uniforms[0].offset, 0);
    assert_eq!(table.uniforms[1].semantic, UniformSemantic::TextureSize(TextureSemantic::Source));
    assert_eq!(table.uniforms[2].semantic, UniformSemantic::Parameter(0));
    assert_eq!(table.uniforms[3].semantic, UniformSemantic::FrameCount);
    assert_eq!(table.uniforms[3].block, UniformBlock::Push);
    assert_eq!(table.textures.len(), 2);
    assert_eq!(table.textures[0].semantic, TextureSemantic::Source);
    assert_eq!(table.textures[0].binding, 0);
    assert_eq!(table.textures[1].semantic, TextureSemantic::User(0));
}

#[test]
fn binder_rejects_unmapped_members() {
    let refl = PassReflection {
        ubo_size: 16,
        ubo_members: vec![member("mystery", 0, 4)],
        push_size: 0,
        push_members: Vec::new(),
        textures: Vec::new(),
    };
    let c = ctx();
    assert_eq!(bind_reflection(&refl, &c), Err(FilterChainError::InvalidBinding));
}

#[test]
fn binder_rejects_forward_pass_output() {
    // Pass 1 of 2 may read PassOutput0 but not PassOutput1.
    let good = PassReflection {
        ubo_size: 0,
        ubo_members: Vec::new(),
        push_size: 0,
        push_members: Vec::new(),
        textures: vec![slot("PassOutput0", 0)],
    };
    let bad = PassReflection {
        ubo_size: 0,
        ubo_members: Vec::new(),
        push_size: 0,
        push_members: Vec::new(),
        textures: vec![slot("PassOutput1", 0)],
    };
    let c = ctx();
    assert!(bind_reflection(&good, &c).is_ok());
    assert_eq!(bind_reflection(&bad, &c), Err(FilterChainError::InvalidBinding));
}

#[test]
fn binder_rejects_wrong_member_width() {
    let refl = PassReflection {
        ubo_size: 16,
        ubo_members: vec![member("FrameCount", 0, 8)],
        push_size: 0,
        push_members: Vec::new(),
        textures: Vec::new(),
    };
    let c = ctx();
    assert_eq!(bind_reflection(&refl, &c), Err(FilterChainError::InvalidBinding));
}

#[test]
fn binder_rejects_member_outside_block() {
    let refl = PassReflection {
        ubo_size: 8,
        ubo_members: vec![member("SourceSize", 0, 16)],
        push_size: 0,
        push_members: Vec::new(),
        textures: Vec::new(),
    };
    let c = ctx();
    assert_eq!(bind_reflection(&refl, &c), Err(FilterChainError::InvalidBinding));
}

#[test]
fn binding_tables_are_reproducible() {
    let refl = PassReflection {
        ubo_size: 96,
        ubo_members: vec![member("MVP", 0, 64), member("OutputSize", 64, 16), member("alpha", 80, 4)],
        push_size: 0,
        push_members: Vec::new(),
        textures: vec![slot("Original", 0), slot("bloom", 1)],
    };
    let c = ctx();
    let t1 = bind_reflection(&refl, &c).expect("binds");
    let t2 = bind_reflection(&refl, &c).expect("binds");
    assert_eq!(t1.uniforms, t2.uniforms);
    assert_eq!(t1.textures, t2.textures);
}
