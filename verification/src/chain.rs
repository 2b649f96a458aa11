//! The filter chain itself: compilation from a preset, the pooled
//! resources, and the per-frame command recording.

use vstd::prelude::*;
use crate::binding::bind_reflection;
use crate::binding::spec_table_matches;
use crate::binding::spec_uniform_width;
use crate::binding::BindingContext;
use crate::binding::BindingTable;
use crate::binding::PassReflection;
use crate::binding::UniformBlock;
use crate::error::FilterChainError;
use crate::fbpool::ImageAllocator;
use crate::fbpool::OwnedImage;
use crate::options::FilterChainOptions;
use crate::options::FrameOptions;
use crate::packer::check_blocks_disjoint;
use crate::packer::spec_block_disjoint;
use crate::params::distinct_names;
use crate::params::ParameterError;
use crate::params::RuntimeParameters;
use crate::preset::ImageFormat;
use crate::preset::PassConfig;
use crate::preset::Preset;
use crate::samplers::FilterMode;
use crate::samplers::MipFilterMode;
use crate::samplers::SamplerSet;
use crate::samplers::WrapMode;
use crate::semantics::spec_name_views;
use crate::semantics::str_equals;
use crate::semantics::Alias;
use crate::semantics::TextureSemantic;
use crate::semantics::UniformSemantic;
use crate::size::calc_miplevel;
use crate::size::spec_miplevels;
use crate::size::Size;

verus! {

/// The caller's output region. Only the extent takes part in sizing; the
/// offset is carried through to the final draw.
#[derive(Clone, Copy, Debug, PartialEq, Eq, Structural)]
pub struct Viewport {
    pub x: i32,
    pub y: i32,
    pub width: u32,
    pub height: u32,
}

/// A reference to an image in the recorded command stream: an identity plus
/// the descriptor it was created with.
#[derive(Clone, Copy, Debug, PartialEq, Eq, Structural)]
pub struct ImageRef {
    pub id: u64,
    pub size: Size,
    pub format: ImageFormat,
    pub levels: u32,
}

/// The reference an owned image is bound by.
pub open spec fn spec_image_ref(img: OwnedImage) -> ImageRef {
    ImageRef { id: img.id, size: img.size, format: img.format, levels: img.max_mipmap }
}

/// One texture bound for a draw: the shader slot, the semantic it satisfies,
/// the image, and how it is sampled.
#[derive(Clone, Copy, Debug, PartialEq, Eq, Structural)]
pub struct BoundTexture {
    pub slot: u32,
    pub semantic: TextureSemantic,
    pub image: ImageRef,
    pub wrap_mode: WrapMode,
    pub filter: FilterMode,
    pub mip_filter: MipFilterMode,
    pub sampler: u64,
}

/// The states the recorded transitions move resources through.
#[derive(Clone, Copy, Debug, PartialEq, Eq, Structural)]
pub enum ResourceState {
    ShaderRead,
    RenderTarget,
    CopySource,
    CopyDest,
}

/// One operation recorded into the caller's command stream. The chain only
/// records; the caller executes.
#[derive(Clone, Debug, PartialEq)]
pub enum FrameCmd {
    /// Zero-fill every texel of an image.
    Clear { image: ImageRef },
    /// Move a resource to a state.
    Transition { image: ImageRef, state: ResourceState },
    /// Copy the full extent of `src` into `dst`.
    CopyImage { src: ImageRef, dst: ImageRef },
    /// Scaled copy of `src` onto `dst`, filling `out_size` texels.
    Blit { src: ImageRef, dst: ImageRef, out_size: Size },
    /// Run pass `pass`'s pipeline over a full-screen quad.
    Draw {
        pass: u32,
        target: ImageRef,
        out_size: Size,
        viewport_x: i32,
        viewport_y: i32,
        textures: Vec<BoundTexture>,
        ubo: Vec<u8>,
        push: Vec<u8>,
    },
    /// Regenerate the mip chain of an image from its top level.
    GenerateMipmaps { image: ImageRef },
}

/// The compiled plan for one pass.
#[derive(Clone, Debug)]
pub struct PassPlan {
    pub config: PassConfig,
    pub table: BindingTable,
    pub ubo_size: u32,
    pub push_size: u32,
    /// Whether this pass keeps a mip chain on its output, after options.
    pub mipmap: bool,
    /// Whether some pass samples this pass's previous-frame output.
    pub feedback: bool,
}

/// The plan for one lookup texture: the caller uploads pixels to the
/// image's identity once, before the first frame.
#[derive(Clone, Copy, Debug, PartialEq, Eq, Structural)]
pub struct LutPlan {
    pub image: ImageRef,
    pub filter: FilterMode,
    pub wrap_mode: WrapMode,
}

/// The history depth a texture semantic demands.
pub open spec fn spec_tex_history(t: TextureSemantic) -> nat {
    match t {
        TextureSemantic::OriginalHistory(k) => k as nat,
        _ => 0,
    }
}

/// The history depth a uniform semantic demands.
pub open spec fn spec_uni_history(u: UniformSemantic) -> nat {
    match u {
        UniformSemantic::TextureSize(t) => spec_tex_history(t),
        _ => 0,
    }
}

/// The largest history index a pass's table references.
pub open spec fn spec_table_history(table: BindingTable) -> nat {
    spec_max2(spec_max_tex_history(table.textures@), spec_max_uni_history(table.uniforms@))
}

pub open spec fn spec_max2(a: nat, b: nat) -> nat {
    if a >= b {
        a
    } else {
        b
    }
}

pub open spec fn spec_max_tex_history(s: Seq<crate::binding::TextureBinding>) -> nat
    decreases s.len(),
{
    if s.len() == 0 {
        0
    } else {
        spec_max2(spec_max_tex_history(s.drop_last()), spec_tex_history(s.last().semantic))
    }
}

pub open spec fn spec_max_uni_history(s: Seq<crate::binding::UniformBinding>) -> nat
    decreases s.len(),
{
    if s.len() == 0 {
        0
    } else {
        spec_max2(spec_max_uni_history(s.drop_last()), spec_uni_history(s.last().semantic))
    }
}

/// The largest history index any pass references: the chain's `H`.
pub open spec fn spec_required_history(tables: Seq<BindingTable>) -> nat
    decreases tables.len(),
{
    if tables.len() == 0 {
        0
    } else {
        spec_max2(spec_required_history(tables.drop_last()), spec_table_history(tables.last()))
    }
}

/// The binding tables of a sequence of plans.
pub open spec fn spec_tables_of(plans: Seq<PassPlan>) -> Seq<BindingTable> {
    plans.map_values(|p: PassPlan| p.table)
}

/// Whether one pass's table samples pass `j`'s previous-frame output or
/// reads its size.
pub open spec fn spec_table_feedback(table: BindingTable, j: u32) -> bool {
    ||| exists|i: int|
        0 <= i < table.textures@.len() && (#[trigger] table.textures@[i]).semantic
            == TextureSemantic::PassFeedback(j)
    ||| exists|i: int|
        0 <= i < table.uniforms@.len() && (#[trigger] table.uniforms@[i]).semantic
            == UniformSemantic::TextureSize(TextureSemantic::PassFeedback(j))
}

/// Whether some pass samples pass `j`'s previous-frame output or its size.
pub open spec fn spec_feedback_referenced(tables: Seq<BindingTable>, j: u32) -> bool
    decreases tables.len(),
{
    if tables.len() == 0 {
        false
    } else {
        spec_feedback_referenced(tables.drop_last(), j) || spec_table_feedback(tables.last(), j)
    }
}

/// The preset's parameter names, in order.
pub open spec fn spec_param_names(preset: Preset) -> Seq<Seq<char>> {
    preset.parameters@.map_values(|p: crate::preset::ParameterConfig| p.name@)
}

/// The preset's parameter defaults, in order.
pub open spec fn spec_param_initials(preset: Preset) -> Seq<u32> {
    preset.parameters@.map_values(|p: crate::preset::ParameterConfig| p.initial)
}

/// The preset's lookup-texture names, in order.
pub open spec fn spec_lut_names(preset: Preset) -> Seq<Seq<char>> {
    preset.textures@.map_values(|t: crate::preset::TextureConfig| t.name@)
}

/// The alias table of a pass list: each exported name with the pass that
/// exports it, in pass order.
pub open spec fn spec_aliases_of(passes: Seq<PassConfig>) -> Seq<(Seq<char>, u32)>
    decreases passes.len(),
{
    if passes.len() == 0 {
        Seq::empty()
    } else {
        spec_aliases_of(passes.drop_last()) + (match passes.last().alias {
            Option::Some(n) => seq![(n@, (passes.len() - 1) as u32)],
            Option::None => Seq::<(Seq<char>, u32)>::empty(),
        })
    }
}

/// Whether `table` is the binding table that pass `i`'s reflection resolves
/// to under the naming context `preset` defines.
pub open spec fn spec_has_ctx(
    table: BindingTable,
    refl: PassReflection,
    preset: Preset,
    i: nat,
) -> bool {
    exists|c: BindingContext| spec_ctx_for(c, preset, i) && #[trigger] spec_table_matches(
        table,
        refl,
        c,
    )
}

/// Each texture entry's history demand is below the table's maximum.
proof fn lemma_tex_entry_le(s: Seq<crate::binding::TextureBinding>, i: int)
    requires
        0 <= i < s.len(),
    ensures
        spec_tex_history(s[i].semantic) <= spec_max_tex_history(s),
    decreases s.len(),
{
    if i + 1 < s.len() {
        lemma_tex_entry_le(s.drop_last(), i);
    }
}

/// Each uniform entry's history demand is below the table's maximum.
proof fn lemma_uni_entry_le(s: Seq<crate::binding::UniformBinding>, i: int)
    requires
        0 <= i < s.len(),
    ensures
        spec_uni_history(s[i].semantic) <= spec_max_uni_history(s),
    decreases s.len(),
{
    if i + 1 < s.len() {
        lemma_uni_entry_le(s.drop_last(), i);
    }
}

/// Each table's history demand is below the chain's maximum.
proof fn lemma_table_le_required(tables: Seq<BindingTable>, t: int)
    requires
        0 <= t < tables.len(),
    ensures
        spec_table_history(tables[t]) <= spec_required_history(tables),
    decreases tables.len(),
{
    if t + 1 < tables.len() {
        lemma_table_le_required(tables.drop_last(), t);
    }
}

/// Two alias lists with the same names and producing passes resolve every
/// texture name alike.
proof fn lemma_resolve_texture_congruent(
    s: Seq<char>,
    a1: Seq<Alias>,
    a2: Seq<Alias>,
    luts: Seq<Seq<char>>,
)
    requires
        a1.map_values(|a: Alias| (a.name@, a.pass)) == a2.map_values(|a: Alias| (a.name@, a.pass)),
    ensures
        crate::semantics::spec_resolve_texture(s, a1, luts) == crate::semantics::spec_resolve_texture(
            s,
            a2,
            luts,
        ),
{
    assert(a1.len() == a2.len()) by {
        assert(a1.map_values(|a: Alias| (a.name@, a.pass)).len() == a1.len());
        assert(a2.map_values(|a: Alias| (a.name@, a.pass)).len() == a2.len());
    }
    assert forall|i: int| 0 <= i < a1.len() implies crate::semantics::spec_alias_names(a1)[i]
        == crate::semantics::spec_alias_names(a2)[i] by {
        assert(a1.map_values(|a: Alias| (a.name@, a.pass))[i] == a2.map_values(
            |a: Alias| (a.name@, a.pass),
        )[i]);
    }
    assert(crate::semantics::spec_alias_names(a1) =~= crate::semantics::spec_alias_names(a2));
    let f = crate::params::spec_find_name(crate::semantics::spec_alias_names(a1), s);
    if f >= 0 {
        crate::params::lemma_find_name_range(crate::semantics::spec_alias_names(a1), s);
        assert(a1.map_values(|a: Alias| (a.name@, a.pass))[f] == a2.map_values(
            |a: Alias| (a.name@, a.pass),
        )[f]);
        assert(a1[f].pass == a2[f].pass);
    }
}

/// Two alias lists with the same names and producing passes resolve every
/// uniform name alike.
proof fn lemma_resolve_uniform_congruent(
    s: Seq<char>,
    a1: Seq<Alias>,
    a2: Seq<Alias>,
    luts: Seq<Seq<char>>,
    params: Seq<Seq<char>>,
)
    requires
        a1.map_values(|a: Alias| (a.name@, a.pass)) == a2.map_values(|a: Alias| (a.name@, a.pass)),
    ensures
        crate::semantics::spec_resolve_uniform(s, a1, luts, params)
            == crate::semantics::spec_resolve_uniform(s, a2, luts, params),
{
    if s.len() >= 4 {
        lemma_resolve_texture_congruent(s.take(s.len() - 4), a1, a2, luts);
    }
}

/// Two contexts for the same pass of the same preset judge a reflection
/// alike and produce the same table entries.
pub proof fn lemma_binding_congruent(
    refl: PassReflection,
    preset: Preset,
    i: nat,
    c1: BindingContext,
    c2: BindingContext,
)
    requires
        spec_ctx_for(c1, preset, i),
        spec_ctx_for(c2, preset, i),
    ensures
        crate::binding::spec_reflection_ok(refl, c1) == crate::binding::spec_reflection_ok(
            refl,
            c2,
        ),
        crate::binding::spec_uniform_entries(refl, c1) == crate::binding::spec_uniform_entries(
            refl,
            c2,
        ),
        crate::binding::spec_texture_entries(refl, c1) == crate::binding::spec_texture_entries(
            refl,
            c2,
        ),
{
    let l1 = spec_name_views(c1.lut_names@);
    let p1 = spec_name_views(c1.param_names@);
    assert(spec_name_views(c2.lut_names@) == l1);
    assert(spec_name_views(c2.param_names@) == p1);
    assert(c1.lut_names@.len() == c2.lut_names@.len()) by {
        assert(spec_name_views(c1.lut_names@).len() == c1.lut_names@.len());
        assert(spec_name_views(c2.lut_names@).len() == c2.lut_names@.len());
    }
    assert forall|m: crate::binding::UniformMemberReflection, bs: nat|
        #[trigger] crate::binding::spec_member_ok(m, c1, bs) == crate::binding::spec_member_ok(
        m,
        c2,
        bs,
    ) by {
        lemma_resolve_uniform_congruent(m.name@, c1.aliases@, c2.aliases@, l1, p1);
    }
    assert forall|m: crate::binding::UniformMemberReflection, b: UniformBlock|
        #[trigger] crate::binding::spec_member_entry(m, c1, b)
            == crate::binding::spec_member_entry(m, c2, b) by {
        lemma_resolve_uniform_congruent(m.name@, c1.aliases@, c2.aliases@, l1, p1);
    }
    assert forall|t: crate::binding::TextureSlotReflection|
        #![trigger crate::binding::spec_slot_ok(t, c1)]
        #![trigger crate::binding::spec_slot_ok(t, c2)]
        #![trigger crate::binding::spec_slot_entry(t, c1)]
        crate::binding::spec_slot_ok(t, c1) == crate::binding::spec_slot_ok(t, c2)
            && crate::binding::spec_slot_entry(t, c1) == crate::binding::spec_slot_entry(
            t,
            c2,
        ) by {
        lemma_resolve_texture_congruent(t.name@, c1.aliases@, c2.aliases@, l1);
    }
    let e1 = crate::binding::spec_uniform_entries(refl, c1);
    let e2 = crate::binding::spec_uniform_entries(refl, c2);
    assert forall|i: int| 0 <= i < e1.len() implies e1[i] == e2[i] by {
        let na = refl.ubo_members@.len() as int;
        if i < na {
            assert(e1[i] == crate::binding::spec_member_entry(
                refl.ubo_members@[i],
                c1,
                UniformBlock::Ubo,
            ));
            assert(e2[i] == crate::binding::spec_member_entry(
                refl.ubo_members@[i],
                c2,
                UniformBlock::Ubo,
            ));
        } else {
            assert(e1[i] == crate::binding::spec_member_entry(
                refl.push_members@[i - na],
                c1,
                UniformBlock::Push,
            ));
            assert(e2[i] == crate::binding::spec_member_entry(
                refl.push_members@[i - na],
                c2,
                UniformBlock::Push,
            ));
        }
    }
    assert(e1 =~= e2);
    assert(crate::binding::spec_texture_entries(refl, c1)
        =~= crate::binding::spec_texture_entries(refl, c2));
    if crate::binding::spec_reflection_ok(refl, c1) {
        assert forall|i: int| 0 <= i < refl.ubo_members@.len() implies crate::binding::spec_member_ok(
            #[trigger] refl.ubo_members@[i],
            c2,
            refl.ubo_size as nat,
        ) by {}
        assert forall|i: int|
            0 <= i < refl.push_members@.len() implies crate::binding::spec_member_ok(
            #[trigger] refl.push_members@[i],
            c2,
            refl.push_size as nat,
        ) by {}
        assert forall|i: int| 0 <= i < refl.textures@.len() implies crate::binding::spec_slot_ok(
            #[trigger] refl.textures@[i],
            c2,
        ) by {}
        assert(crate::binding::spec_reflection_ok(refl, c2));
    }
    if crate::binding::spec_reflection_ok(refl, c2) {
        assert forall|i: int| 0 <= i < refl.ubo_members@.len() implies crate::binding::spec_member_ok(
            #[trigger] refl.ubo_members@[i],
            c1,
            refl.ubo_size as nat,
        ) by {}
        assert forall|i: int|
            0 <= i < refl.push_members@.len() implies crate::binding::spec_member_ok(
            #[trigger] refl.push_members@[i],
            c1,
            refl.push_size as nat,
        ) by {}
        assert forall|i: int| 0 <= i < refl.textures@.len() implies crate::binding::spec_slot_ok(
            #[trigger] refl.textures@[i],
            c1,
        ) by {}
        assert(crate::binding::spec_reflection_ok(refl, c1));
    }
}

/// Chain construction is deterministic in the preset: two binding tables
/// built for the same pass of the same preset from the same reflection,
/// under any naming contexts the preset defines, hold equal entries in
/// equal order.
pub proof fn lemma_preset_tables_deterministic(
    refl: PassReflection,
    preset: Preset,
    i: nat,
    t1: BindingTable,
    c1: BindingContext,
    t2: BindingTable,
    c2: BindingContext,
)
    requires
        spec_ctx_for(c1, preset, i),
        spec_table_matches(t1, refl, c1),
        spec_ctx_for(c2, preset, i),
        spec_table_matches(t2, refl, c2),
    ensures
        t1.uniforms@ == t2.uniforms@,
        t1.textures@ == t2.textures@,
{
    lemma_binding_congruent(refl, preset, i, c1, c2);
}

/// Whether `ctx` is the naming context every pass `i` of `preset` is bound
/// against.
pub open spec fn spec_ctx_for(ctx: BindingContext, preset: Preset, i: nat) -> bool {
    &&& ctx.pass_index == i
    &&& ctx.total_passes == preset.passes@.len()
    &&& ctx.aliases@.map_values(|a: Alias| (a.name@, a.pass)) == spec_aliases_of(preset.passes@)
    &&& spec_name_views(ctx.lut_names@) == spec_lut_names(preset)
    &&& spec_name_views(ctx.param_names@) == spec_param_names(preset)
}

/// Whether a texture semantic referenced by pass `pass` stays inside the
/// chain's resources.
pub open spec fn spec_tex_bounded(
    t: TextureSemantic,
    pass: nat,
    total: nat,
    luts: nat,
    hist: nat,
) -> bool {
    match t {
        TextureSemantic::Original => true,
        TextureSemantic::Source => true,
        TextureSemantic::OriginalHistory(k) => k <= hist,
        TextureSemantic::PassOutput(j) => (j as nat) < pass,
        TextureSemantic::PassFeedback(j) => (j as nat) < total,
        TextureSemantic::User(j) => (j as nat) < luts,
    }
}

pub open spec fn spec_uni_bounded(
    u: UniformSemantic,
    pass: nat,
    total: nat,
    luts: nat,
    hist: nat,
    nparams: nat,
) -> bool {
    match u {
        UniformSemantic::TextureSize(t) => spec_tex_bounded(t, pass, total, luts, hist),
        UniformSemantic::Parameter(j) => (j as nat) < nparams,
        _ => true,
    }
}

/// Whether a pass's plan only references what the chain owns, with every
/// uniform entry laid out inside its block and no two entries overlapping.
pub open spec fn spec_plan_bounded(
    plan: PassPlan,
    pass: nat,
    total: nat,
    luts: nat,
    hist: nat,
    nparams: nat,
) -> bool {
    &&& plan.config.scaling.wf()
    &&& forall|i: int|
        0 <= i < plan.table.uniforms@.len() ==> {
            let e = #[trigger] plan.table.uniforms@[i];
            &&& spec_uni_bounded(e.semantic, pass, total, luts, hist, nparams)
            &&& e.size == spec_uniform_width(e.semantic)
            &&& e.offset + e.size <= (if e.block == UniformBlock::Ubo {
                plan.ubo_size as nat
            } else {
                plan.push_size as nat
            })
        }
    &&& forall|i: int|
        0 <= i < plan.table.textures@.len() ==> spec_tex_bounded(
            (#[trigger] plan.table.textures@[i]).semantic,
            pass,
            total,
            luts,
            hist,
        )
    &&& spec_block_disjoint(plan.table.uniforms@, UniformBlock::Ubo)
    &&& spec_block_disjoint(plan.table.uniforms@, UniformBlock::Push)
}

/// A compiled filter chain: the immutable plan, the pooled render targets,
/// the history ring, the feedback sources, and the runtime parameters.
pub struct FilterChain {
    passes: Vec<PassPlan>,
    outputs: Vec<OwnedImage>,
    history: Vec<OwnedImage>,
    feedback_back: Vec<Option<OwnedImage>>,
    luts: Vec<LutPlan>,
    samplers: SamplerSet,
    params: RuntimeParameters,
    alloc: ImageAllocator,
    required_history: u32,
    /// Which frame's input each history slot holds; `-1` when unknown.
    history_src: Ghost<Seq<int>>,
    /// Which frame last drew into each pass's output; `-1` when unknown.
    outputs_src: Ghost<Seq<int>>,
    /// Which frame's output each feedback source holds; `-1` when unknown.
    feedback_src: Ghost<Seq<int>>,
}

impl FilterChain {
    pub closed spec fn plans(&self) -> Seq<PassPlan> {
        self.passes@
    }

    pub closed spec fn output_images(&self) -> Seq<OwnedImage> {
        self.outputs@
    }

    pub closed spec fn history_images(&self) -> Seq<OwnedImage> {
        self.history@
    }

    pub closed spec fn feedback_images(&self) -> Seq<Option<OwnedImage>> {
        self.feedback_back@
    }

    pub closed spec fn lut_plans_view(&self) -> Seq<LutPlan> {
        self.luts@
    }

    pub closed spec fn param_state(&self) -> RuntimeParameters {
        self.params
    }

    pub closed spec fn history_depth(&self) -> nat {
        self.required_history as nat
    }

    pub closed spec fn alloc_state(&self) -> ImageAllocator {
        self.alloc
    }

    pub closed spec fn history_tags(&self) -> Seq<int> {
        self.history_src@
    }

    pub closed spec fn output_tags(&self) -> Seq<int> {
        self.outputs_src@
    }

    pub closed spec fn feedback_tags(&self) -> Seq<int> {
        self.feedback_src@
    }

    pub closed spec fn sampler_state(&self) -> SamplerSet {
        self.samplers
    }

    pub open spec fn sampler_handles(&self) -> Seq<u64> {
        self.sampler_state().view_handles()
    }

    pub open spec fn pass_count(&self) -> nat {
        self.plans().len()
    }

    /// The chain's structural invariant.
    pub open spec fn wf(&self) -> bool {
        let n = self.pass_count();
        &&& n <= u32::MAX
        &&& self.lut_plans_view().len() <= u32::MAX
        &&& self.output_images().len() == n
        &&& self.feedback_images().len() == n
        &&& self.param_state().wf()
        &&& self.param_state().total_passes() == n
        &&& self.param_state().values_view().len() == self.param_state().names_view().len()
        &&& self.sampler_state().wf()
        &&& self.history_depth() == spec_required_history(spec_tables_of(self.plans()))
        &&& self.history_images().len() == (if self.history_depth() == 0 {
            0nat
        } else {
            self.history_depth() + 1
        })
        &&& forall|i: int|
            0 <= i < n ==> spec_plan_bounded(
                #[trigger] self.plans()[i],
                i as nat,
                n,
                self.lut_plans_view().len(),
                self.history_depth(),
                self.param_state().values_view().len(),
            )
        &&& forall|i: int| 0 <= i < n ==> (#[trigger] self.output_images()[i]).wf()
        &&& forall|i: int|
            0 <= i < self.history_images().len() ==> (#[trigger] self.history_images()[i]).wf()
        &&& forall|i: int|
            0 <= i < n ==> ((#[trigger] self.feedback_images()[i]) is Some <==> self.plans()[i].feedback)
        &&& forall|i: int|
            0 <= i < n && (#[trigger] self.feedback_images()[i]) is Some
                ==> self.feedback_images()[i]->0.wf()
        &&& self.history_tags().len() == self.history_images().len()
        &&& self.output_tags().len() == n
        &&& self.feedback_tags().len() == n
    }

    /// How many passes the chain was built with.
    pub fn get_pass_count(&self) -> (r: usize)
        ensures
            r == self.pass_count(),
    {
        self.passes.len()
    }

    /// The lookup-texture plans the caller must upload pixels for.
    pub fn lut_plans(&self) -> (r: &Vec<LutPlan>)
        ensures
            r@ == self.lut_plans_view(),
    {
        &self.luts
    }

    /// One pass's binding table.
    pub fn pass_table(&self, i: usize) -> (r: &BindingTable)
        requires
            i < self.pass_count(),
        ensures
            *r == self.plans()[i as int].table,
    {
        &self.passes[i].table
    }

    /// Read a runtime parameter's value word.
    pub fn get_parameter(&self, name: &str) -> (r: Option<u32>)
        requires
            self.wf(),
        ensures
            r == if self.param_state().knows(name@) {
                Some(self.param_state().value_of(name@))
            } else {
                None::<u32>
            },
    {
        self.params.get(name)
    }

    /// Write a runtime parameter's value word; unknown names fail and
    /// change nothing. The next frame's snapshot observes the new value.
    pub fn set_parameter(&mut self, name: &str, value: u32) -> (r: Result<(), FilterChainError>)
        requires
            old(self).wf(),
        ensures
            final(self).wf(),
            final(self).plans() == old(self).plans(),
            final(self).output_images() == old(self).output_images(),
            final(self).history_images() == old(self).history_images(),
            final(self).feedback_images() == old(self).feedback_images(),
            final(self).lut_plans_view() == old(self).lut_plans_view(),
            final(self).param_state().names_view() == old(self).param_state().names_view(),
            final(self).param_state().enabled_passes() == old(self).param_state().enabled_passes(),
            if old(self).param_state().knows(name@) {
                r is Ok && final(self).param_state().values_view() == old(self).param_state()
                    .values_view().update(
                    crate::params::spec_find_name(old(self).param_state().names_view(), name@),
                    value,
                )
            } else {
                r == Err::<(), FilterChainError>(FilterChainError::UnknownParameter)
                    && final(self).param_state().values_view() == old(self).param_state()
                    .values_view()
            },
    {
        let res = self.params.set(name, value);
        proof {
            crate::params::lemma_find_name_range(old(self).param_state().names_view(), name@);
            assert(self.pass_count() == old(self).pass_count());
            assert(self.param_state().wf());
            assert(self.param_state().values_view().len() == old(self).param_state().values_view().len());
            assert forall|i: int| 0 <= i < self.pass_count() implies spec_plan_bounded(
                #[trigger] self.plans()[i],
                i as nat,
                self.pass_count(),
                self.lut_plans_view().len(),
                self.history_depth(),
                self.param_state().values_view().len(),
            ) by {
                assert(spec_plan_bounded(
                    old(self).plans()[i],
                    i as nat,
                    old(self).pass_count(),
                    old(self).lut_plans_view().len(),
                    old(self).history_depth(),
                    old(self).param_state().values_view().len(),
                ));
            }
        }
        match res {
            Ok(u) => Ok(u),
            Err(ParameterError::UnknownParameter) => Err(FilterChainError::UnknownParameter),
        }
    }

    /// Set how many passes run each frame, silently clamped to the number
    /// of passes the chain was built with.
    pub fn set_enabled_pass_count(&mut self, count: usize)
        requires
            old(self).wf(),
        ensures
            final(self).wf(),
            final(self).plans() == old(self).plans(),
            final(self).param_state().values_view() == old(self).param_state().values_view(),
            final(self).param_state().enabled_passes() == (if count as nat <= old(self).pass_count() {
                count as nat
            } else {
                old(self).pass_count()
            }),
            final(self).output_images() == old(self).output_images(),
            final(self).history_images() == old(self).history_images(),
            final(self).feedback_images() == old(self).feedback_images(),
            final(self).lut_plans_view() == old(self).lut_plans_view(),
    {
        self.params.set_enabled_pass_count(count);
    }

    /// How many passes currently run each frame.
    pub fn get_enabled_pass_count(&self) -> (r: usize)
        ensures
            r == self.param_state().enabled_passes(),
    {
        self.params.get_enabled_pass_count()
    }
}

/// A copy of a list of owned names, value for value.
fn clone_strings(v: &Vec<String>) -> (r: Vec<String>)
    ensures
        r@ == v@,
{
    let n = v.len();
    let mut out: Vec<String> = Vec::new();
    let mut i: usize = 0;
    while i < n
        invariant
            i <= n,
            n == v@.len(),
            out@ == v@.subrange(0, i as int),
        decreases n - i,
    {
        out.push(v[i].clone());
        proof {
            assert(out@ =~= v@.subrange(0, i + 1));
        }
        i = i + 1;
    }
    proof {
        assert(out@ =~= v@);
    }
    out
}

/// Whether the names are pairwise distinct.
fn distinct_strings(v: &Vec<String>) -> (r: bool)
    ensures
        r == distinct_names(spec_name_views(v@)),
{
    let n = v.len();
    let mut i: usize = 0;
    while i < n
        invariant
            i <= n,
            n == v@.len(),
            forall|a: int, b: int|
                #![trigger spec_name_views(v@)[a], spec_name_views(v@)[b]]
                0 <= a < b < n && a < i ==> spec_name_views(v@)[a] != spec_name_views(v@)[b],
        decreases n - i,
    {
        let mut j: usize = i + 1;
        while j < n
            invariant
                i < j <= n,
                n == v@.len(),
                forall|b: int|
                    i < b < j ==> spec_name_views(v@)[i as int] != #[trigger] spec_name_views(
                        v@,
                    )[b],
            decreases n - j,
        {
            if str_equals(v[i].as_str(), v[j].as_str()) {
                proof {
                    assert(spec_name_views(v@)[i as int] == spec_name_views(v@)[j as int]);
                }
                return false;
            }
            j = j + 1;
        }
        i = i + 1;
    }
    true
}

/// Whether a factor's denominator is non-zero.
fn scaling_wf_exec(s: &crate::scaling::Scaling) -> (r: bool)
    ensures
        r == s.wf(),
{
    match *s {
        crate::scaling::Scaling::Source(f) => f.den >= 1,
        crate::scaling::Scaling::Viewport(f) => f.den >= 1,
        crate::scaling::Scaling::Absolute(_) => true,
    }
}

/// The byte width a uniform semantic is written with.
fn uniform_width_of(u: &UniformSemantic) -> (r: u32)
    ensures
        r == spec_uniform_width(*u),
{
    match *u {
        UniformSemantic::Mvp => 64,
        UniformSemantic::OutputSize => 16,
        UniformSemantic::FinalViewportSize => 16,
        UniformSemantic::FrameCount => 4,
        UniformSemantic::FrameDirection => 4,
        UniformSemantic::TextureSize(_) => 16,
        UniformSemantic::Parameter(_) => 4,
    }
}

/// Whether a texture semantic stays inside the chain's resources.
fn tex_bounded_exec(t: &TextureSemantic, pass: u32, total: u32, luts: u32, hist: u32) -> (r: bool)
    ensures
        r == spec_tex_bounded(*t, pass as nat, total as nat, luts as nat, hist as nat),
{
    match *t {
        TextureSemantic::Original => true,
        TextureSemantic::Source => true,
        TextureSemantic::OriginalHistory(k) => k <= hist,
        TextureSemantic::PassOutput(j) => j < pass,
        TextureSemantic::PassFeedback(j) => j < total,
        TextureSemantic::User(j) => j < luts,
    }
}

/// Whether a pass's plan only references what the chain owns, with every
/// uniform entry inside its block and no two entries overlapping.
fn check_plan_bounded(
    plan: &PassPlan,
    pass: u32,
    total: u32,
    luts: u32,
    hist: u32,
    nparams: u32,
) -> (r: bool)
    ensures
        r == spec_plan_bounded(
            *plan,
            pass as nat,
            total as nat,
            luts as nat,
            hist as nat,
            nparams as nat,
        ),
{
    if !scaling_wf_exec(&plan.config.scaling.x) || !scaling_wf_exec(&plan.config.scaling.y) {
        return false;
    }
    let nu = plan.table.uniforms.len();
    let mut i: usize = 0;
    while i < nu
        invariant
            i <= nu,
            nu == plan.table.uniforms@.len(),
            forall|a: int|
                0 <= a < i ==> {
                    let e = #[trigger] plan.table.uniforms@[a];
                    &&& spec_uni_bounded(
                        e.semantic,
                        pass as nat,
                        total as nat,
                        luts as nat,
                        hist as nat,
                        nparams as nat,
                    )
                    &&& e.size == spec_uniform_width(e.semantic)
                    &&& e.offset + e.size <= (if e.block == UniformBlock::Ubo {
                        plan.ubo_size as nat
                    } else {
                        plan.push_size as nat
                    })
                },
        decreases nu - i,
    {
        let e = &plan.table.uniforms[i];
        let bounded = match e.semantic {
            UniformSemantic::TextureSize(t) => tex_bounded_exec(&t, pass, total, luts, hist),
            UniformSemantic::Parameter(j) => j < nparams,
            _ => true,
        };
        if !bounded {
            return false;
        }
        if e.size != uniform_width_of(&e.semantic) {
            return false;
        }
        let block_size = if e.block == UniformBlock::Ubo {
            plan.ubo_size
        } else {
            plan.push_size
        };
        if e.offset > block_size || block_size - e.offset < e.size {
            return false;
        }
        i = i + 1;
    }
    let nt = plan.table.textures.len();
    let mut t: usize = 0;
    while t < nt
        invariant
            t <= nt,
            nt == plan.table.textures@.len(),
            forall|a: int|
                0 <= a < t ==> spec_tex_bounded(
                    (#[trigger] plan.table.textures@[a]).semantic,
                    pass as nat,
                    total as nat,
                    luts as nat,
                    hist as nat,
                ),
        decreases nt - t,
    {
        if !tex_bounded_exec(&plan.table.textures[t].semantic, pass, total, luts, hist) {
            return false;
        }
        t = t + 1;
    }
    check_blocks_disjoint(&plan.table.uniforms)
}

/// The largest history index one table references.
fn table_history_max(table: &BindingTable) -> (r: u32)
    ensures
        r == spec_table_history(*table),
{
    let nt = table.textures.len();
    let mut acc: u32 = 0;
    let mut i: usize = 0;
    while i < nt
        invariant
            i <= nt,
            nt == table.textures@.len(),
            acc == spec_max_tex_history(table.textures@.subrange(0, i as int)),
        decreases nt - i,
    {
        let k: u32 = match table.textures[i].semantic {
            TextureSemantic::OriginalHistory(k) => k,
            _ => 0,
        };
        if k > acc {
            acc = k;
        }
        proof {
            assert(table.textures@.subrange(0, i + 1).drop_last() =~= table.textures@.subrange(
                0,
                i as int,
            ));
        }
        i = i + 1;
    }
    proof {
        assert(table.textures@.subrange(0, nt as int) =~= table.textures@);
    }
    let nu = table.uniforms.len();
    let mut acc2: u32 = 0;
    let mut j: usize = 0;
    while j < nu
        invariant
            j <= nu,
            nu == table.uniforms@.len(),
            acc2 == spec_max_uni_history(table.uniforms@.subrange(0, j as int)),
        decreases nu - j,
    {
        let k: u32 = match table.uniforms[j].semantic {
            UniformSemantic::TextureSize(TextureSemantic::OriginalHistory(k)) => k,
            _ => 0,
        };
        if k > acc2 {
            acc2 = k;
        }
        proof {
            assert(table.uniforms@.subrange(0, j + 1).drop_last() =~= table.uniforms@.subrange(
                0,
                j as int,
            ));
        }
        j = j + 1;
    }
    proof {
        assert(table.uniforms@.subrange(0, nu as int) =~= table.uniforms@);
    }
    if acc >= acc2 {
        acc
    } else {
        acc2
    }
}

/// The largest history index any table references.
fn tables_history(tables: &Vec<BindingTable>) -> (r: u32)
    ensures
        r == spec_required_history(tables@),
{
    let n = tables.len();
    let mut acc: u32 = 0;
    let mut i: usize = 0;
    while i < n
        invariant
            i <= n,
            n == tables@.len(),
            acc == spec_required_history(tables@.subrange(0, i as int)),
        decreases n - i,
    {
        let k = table_history_max(&tables[i]);
        if k > acc {
            acc = k;
        }
        proof {
            assert(tables@.subrange(0, i + 1).drop_last() =~= tables@.subrange(0, i as int));
        }
        i = i + 1;
    }
    proof {
        assert(tables@.subrange(0, n as int) =~= tables@);
    }
    acc
}

/// Whether one table references pass `j`'s feedback.
fn table_refs_feedback(table: &BindingTable, j: u32) -> (r: bool)
    ensures
        r == spec_table_feedback(*table, j),
{
    let nt = table.textures.len();
    let mut i: usize = 0;
    while i < nt
        invariant
            i <= nt,
            nt == table.textures@.len(),
            forall|a: int|
                0 <= a < i ==> (#[trigger] table.textures@[a]).semantic
                    != TextureSemantic::PassFeedback(j),
        decreases nt - i,
    {
        let is_fb = match table.textures[i].semantic {
            TextureSemantic::PassFeedback(f) => f == j,
            _ => false,
        };
        if is_fb {
            return true;
        }
        i = i + 1;
    }
    let nu = table.uniforms.len();
    let mut u: usize = 0;
    while u < nu
        invariant
            u <= nu,
            nu == table.uniforms@.len(),
            forall|a: int|
                0 <= a < nt ==> (#[trigger] table.textures@[a]).semantic
                    != TextureSemantic::PassFeedback(j),
            forall|a: int|
                0 <= a < u ==> (#[trigger] table.uniforms@[a]).semantic
                    != UniformSemantic::TextureSize(TextureSemantic::PassFeedback(j)),
        decreases nu - u,
    {
        let is_fb = match table.uniforms[u].semantic {
            UniformSemantic::TextureSize(TextureSemantic::PassFeedback(f)) => f == j,
            _ => false,
        };
        if is_fb {
            return true;
        }
        u = u + 1;
    }
    false
}

/// Whether any table references pass `j`'s feedback.
fn any_refs_feedback(tables: &Vec<BindingTable>, j: u32) -> (r: bool)
    ensures
        r == spec_feedback_referenced(tables@, j),
{
    let n = tables.len();
    let mut i: usize = 0;
    while i < n
        invariant
            i <= n,
            n == tables@.len(),
            !spec_feedback_referenced(tables@.subrange(0, i as int), j),
        decreases n - i,
    {
        let found = table_refs_feedback(&tables[i], j);
        proof {
            assert(tables@.subrange(0, i + 1).drop_last() =~= tables@.subrange(0, i as int));
        }
        if found {
            proof {
                lemma_feedback_prefix(tables@, j, i + 1);
            }
            return true;
        }
        i = i + 1;
    }
    proof {
        assert(tables@.subrange(0, n as int) =~= tables@);
    }
    false
}

/// Everything `create` checks of its inputs' shape: one reflection per
/// pass, one size per lookup texture, no empty lookup texture, counts that
/// fit the index types, distinct parameter names, and well-formed scale
/// factors.
pub open spec fn spec_create_shape_ok(
    preset: Preset,
    reflections: Seq<PassReflection>,
    lut_sizes: Seq<Size>,
) -> bool {
    &&& reflections.len() == preset.passes@.len()
    &&& lut_sizes.len() == preset.textures@.len()
    &&& preset.passes@.len() <= u32::MAX
    &&& preset.textures@.len() <= u32::MAX
    &&& preset.parameters@.len() <= u32::MAX
    &&& forall|j: int|
        0 <= j < lut_sizes.len() ==> (#[trigger] lut_sizes[j]).width >= 1 && lut_sizes[j].height
            >= 1
    &&& distinct_names(spec_param_names(preset))
    &&& forall|i: int|
        0 <= i < preset.passes@.len() ==> (#[trigger] preset.passes@[i]).scaling.wf()
}

/// The largest history index a reflection's resolved entries reference.
pub open spec fn spec_refl_history(refl: PassReflection, c: BindingContext) -> nat {
    spec_max2(
        spec_max_tex_history(crate::binding::spec_texture_entries(refl, c)),
        spec_max_uni_history(crate::binding::spec_uniform_entries(refl, c)),
    )
}

/// Whether pass `i`'s reflection resolves under the preset's naming
/// context, with non-overlapping uniform entries and a representable
/// history demand.
pub open spec fn spec_pass_binds(preset: Preset, refl: PassReflection, i: nat) -> bool {
    exists|c: BindingContext|
        #[trigger] spec_ctx_for(c, preset, i) && crate::binding::spec_reflection_ok(refl, c)
            && spec_block_disjoint(
            crate::binding::spec_uniform_entries(refl, c),
            UniformBlock::Ubo,
        ) && spec_block_disjoint(
            crate::binding::spec_uniform_entries(refl, c),
            UniformBlock::Push,
        ) && spec_refl_history(refl, c) < usize::MAX
}

/// A maximum over values all below a bound stays below it.
proof fn lemma_required_lt(tables: Seq<BindingTable>, m: nat)
    requires
        m >= 1,
        forall|t: int| 0 <= t < tables.len() ==> spec_table_history(#[trigger] tables[t]) < m,
    ensures
        spec_required_history(tables) < m,
    decreases tables.len(),
{
    if tables.len() > 0 {
        lemma_required_lt(tables.drop_last(), m);
    }
}

/// A plan whose table came from a successful bind under the preset's
/// context, whose entries do not overlap, and whose scale factors are
/// well-formed stays inside the chain's resources once the history depth
/// is the maximum over every table.
proof fn lemma_plan_bounded_from_binds(
    plan: PassPlan,
    preset: Preset,
    refl: PassReflection,
    tables: Seq<BindingTable>,
    k: int,
    n_luts: nat,
    required: nat,
    n_params: nat,
)
    requires
        0 <= k < tables.len(),
        tables.len() == preset.passes@.len(),
        plan.table == tables[k],
        plan.config == preset.passes@[k],
        plan.ubo_size == refl.ubo_size,
        plan.push_size == refl.push_size,
        spec_has_ctx(tables[k], refl, preset, k as nat),
        spec_pass_binds(preset, refl, k as nat),
        preset.passes@[k].scaling.wf(),
        n_luts == preset.textures@.len(),
        n_params == preset.parameters@.len(),
        required == spec_required_history(tables),
    ensures
        spec_plan_bounded(
            plan,
            k as nat,
            preset.passes@.len(),
            n_luts,
            required,
            n_params,
        ),
{
    let ch = choose|c: BindingContext|
        spec_ctx_for(c, preset, k as nat) && #[trigger] spec_table_matches(tables[k], refl, c);
    let cw = choose|c: BindingContext|
        #[trigger] spec_ctx_for(c, preset, k as nat) && crate::binding::spec_reflection_ok(refl, c)
            && spec_block_disjoint(
            crate::binding::spec_uniform_entries(refl, c),
            UniformBlock::Ubo,
        ) && spec_block_disjoint(
            crate::binding::spec_uniform_entries(refl, c),
            UniformBlock::Push,
        ) && spec_refl_history(refl, c) < usize::MAX;
    lemma_binding_congruent(refl, preset, k as nat, cw, ch);
    let total = preset.passes@.len();
    assert(ch.pass_index == k && ch.total_passes == total);
    assert(ch.lut_names@.len() == n_luts) by {
        assert(spec_name_views(ch.lut_names@).len() == ch.lut_names@.len());
    }
    assert(ch.param_names@.len() == n_params) by {
        assert(spec_name_views(ch.param_names@).len() == ch.param_names@.len());
    }
    lemma_table_le_required(tables, k);
    let uni = plan.table.uniforms@;
    let tex = plan.table.textures@;
    assert(uni == crate::binding::spec_uniform_entries(refl, ch));
    assert(tex == crate::binding::spec_texture_entries(refl, ch));
    let na = refl.ubo_members@.len() as int;
    assert forall|i: int| 0 <= i < uni.len() implies {
        let e = #[trigger] uni[i];
        &&& spec_uni_bounded(e.semantic, k as nat, total, n_luts, required, n_params)
        &&& e.size == spec_uniform_width(e.semantic)
        &&& e.offset + e.size <= (if e.block == UniformBlock::Ubo {
            plan.ubo_size as nat
        } else {
            plan.push_size as nat
        })
    } by {
        let e = uni[i];
        let m = if i < na {
            refl.ubo_members@[i]
        } else {
            refl.push_members@[i - na]
        };
        let bs = if i < na {
            refl.ubo_size as nat
        } else {
            refl.push_size as nat
        };
        assert(crate::binding::spec_member_ok(m, ch, bs));
        assert(e == crate::binding::spec_member_entry(
            m,
            ch,
            if i < na {
                UniformBlock::Ubo
            } else {
                UniformBlock::Push
            },
        ));
        lemma_uni_entry_le(uni, i);
        match e.semantic {
            UniformSemantic::Parameter(j) => {
                crate::params::lemma_find_name_range(spec_name_views(ch.param_names@), m.name@);
            },
            _ => {},
        }
    }
    assert forall|i: int| 0 <= i < tex.len() implies spec_tex_bounded(
        (#[trigger] tex[i]).semantic,
        k as nat,
        total,
        n_luts,
        required,
    ) by {
        assert(crate::binding::spec_slot_ok(refl.textures@[i], ch));
        assert(tex[i] == crate::binding::spec_slot_entry(refl.textures@[i], ch));
        lemma_tex_entry_le(tex, i);
        match tex[i].semantic {
            TextureSemantic::User(j) => {
                crate::params::lemma_find_name_range(
                    spec_name_views(ch.lut_names@),
                    refl.textures@[i].name@,
                );
            },
            _ => {},
        }
    }
    assert(spec_block_disjoint(uni, UniformBlock::Ubo) && spec_block_disjoint(
        uni,
        UniformBlock::Push,
    )) by {
        assert(crate::binding::spec_uniform_entries(refl, cw)
            == crate::binding::spec_uniform_entries(refl, ch));
    }
}

impl FilterChain {
    /// Compile a preset into a chain. Each pass's reflection is resolved
    /// into a fixed binding table; the history depth and feedback set are
    /// derived from what the tables reference; render targets start at a
    /// single texel and are resized by the first frame; parameters are
    /// seeded from the preset's defaults with every pass enabled.
    ///
    /// Construction fails with `InvalidParameter` when the reflection or
    /// lookup-texture lists do not match the preset, a lookup texture is
    /// empty, or two parameters share a name; with `InvalidBinding` when a
    /// reflected name does not resolve; and with `AllocationFailed` when an
    /// image cannot be created.
    pub fn create(
        preset: Preset,
        reflections: Vec<PassReflection>,
        lut_sizes: Vec<Size>,
        options: Option<FilterChainOptions>,
    ) -> (r: Result<FilterChain, FilterChainError>)
        ensures
            match r {
                Ok(chain) => {
                    &&& chain.wf()
                    &&& chain.pass_count() == preset.passes@.len()
                    &&& forall|i: int|
                        0 <= i < chain.pass_count() ==> (#[trigger] chain.plans()[i]).config
                            == preset.passes@[i]
                    &&& forall|i: int|
                        0 <= i < chain.pass_count() ==> (#[trigger] chain.plans()[i]).mipmap == (
                        preset.passes@[i].mipmap && !(match options {
                            Option::Some(o) => o.force_no_mipmaps,
                            Option::None => false,
                        }))
                    &&& forall|i: int|
                        0 <= i < chain.pass_count() ==> (#[trigger] chain.plans()[i]).ubo_size
                            == reflections@[i].ubo_size && chain.plans()[i].push_size
                            == reflections@[i].push_size
                    &&& forall|i: int|
                        0 <= i < chain.pass_count() ==> (#[trigger] chain.plans()[i]).feedback
                            == spec_feedback_referenced(spec_tables_of(chain.plans()), i as u32)
                    &&& forall|i: int|
                        0 <= i < chain.pass_count() ==> spec_has_ctx(
                            (#[trigger] chain.plans()[i]).table,
                            reflections@[i],
                            preset,
                            i as nat,
                        )
                    &&& chain.param_state().names_view() == spec_param_names(preset)
                    &&& chain.param_state().values_view() == spec_param_initials(preset)
                    &&& chain.param_state().enabled_passes() == preset.passes@.len()
                    &&& chain.lut_plans_view().len() == preset.textures@.len()
                    &&& forall|j: int|
                        0 <= j < chain.lut_plans_view().len() ==> {
                            let lp = #[trigger] chain.lut_plans_view()[j];
                            &&& lp.image.size == lut_sizes@[j]
                            &&& lp.filter == preset.textures@[j].filter
                            &&& lp.wrap_mode == preset.textures@[j].wrap_mode
                            &&& lp.image.levels == (if preset.textures@[j].mipmap {
                                spec_miplevels(lut_sizes@[j])
                            } else {
                                1nat
                            })
                        }
                    &&& chain.alloc_state().next <= 1 + 2 * preset.passes@.len()
                        + chain.history_images().len() + preset.textures@.len()
                    &&& chain.history_tags() == Seq::new(
                        chain.history_images().len(),
                        |i: int| -1,
                    )
                    &&& chain.output_tags() == Seq::new(chain.pass_count(), |i: int| -1)
                    &&& chain.feedback_tags() == Seq::new(chain.pass_count(), |i: int| -1)
                },
                Err(e) => e == FilterChainError::InvalidParameter || e
                    == FilterChainError::InvalidBinding || e == FilterChainError::AllocationFailed,
            },
            r is Ok ==> spec_create_shape_ok(preset, reflections@, lut_sizes@),
            (spec_create_shape_ok(preset, reflections@, lut_sizes@) && (forall|i: int|
                0 <= i < preset.passes@.len() ==> spec_pass_binds(
                    preset,
                    #[trigger] reflections@[i],
                    i as nat,
                ))) ==> r is Ok,
    {
        let force_no_mipmaps = match &options {
            Some(o) => o.force_no_mipmaps,
            None => false,
        };
        let total_usize = preset.passes.len();
        if reflections.len() != total_usize {
            return Err(FilterChainError::InvalidParameter);
        }
        if lut_sizes.len() != preset.textures.len() {
            return Err(FilterChainError::InvalidParameter);
        }
        if total_usize > u32::MAX as usize || preset.textures.len() > u32::MAX as usize
            || preset.parameters.len() > u32::MAX as usize {
            return Err(FilterChainError::InvalidParameter);
        }
        let total: u32 = total_usize as u32;
        let n_luts: u32 = preset.textures.len() as u32;
        let n_params: u32 = preset.parameters.len() as u32;

        let mut s: usize = 0;
        while s < lut_sizes.len()
            invariant
                s <= lut_sizes@.len(),
                forall|j: int|
                    0 <= j < s ==> (#[trigger] lut_sizes@[j]).width >= 1 && lut_sizes@[j].height
                        >= 1,
            decreases lut_sizes@.len() - s,
        {
            if lut_sizes[s].width == 0 || lut_sizes[s].height == 0 {
                return Err(FilterChainError::InvalidParameter);
            }
            s = s + 1;
        }

        // Naming context: lookup-texture names, parameter names, aliases.
        let mut lut_names: Vec<String> = Vec::new();
        let mut i: usize = 0;
        while i < preset.textures.len()
            invariant
                i <= preset.textures@.len(),
                lut_names@.len() == i,
                forall|j: int| 0 <= j < i ==> #[trigger] lut_names@[j] == preset.textures@[j].name,
            decreases preset.textures@.len() - i,
        {
            lut_names.push(preset.textures[i].name.clone());
            i = i + 1;
        }
        proof {
            assert(spec_name_views(lut_names@) =~= spec_lut_names(preset));
        }
        let mut param_names: Vec<String> = Vec::new();
        let mut initials: Vec<u32> = Vec::new();
        let mut p: usize = 0;
        while p < preset.parameters.len()
            invariant
                p <= preset.parameters@.len(),
                param_names@.len() == p,
                initials@.len() == p,
                forall|j: int|
                    0 <= j < p ==> #[trigger] param_names@[j] == preset.parameters@[j].name,
                forall|j: int|
                    0 <= j < p ==> #[trigger] initials@[j] == preset.parameters@[j].initial,
            decreases preset.parameters@.len() - p,
        {
            param_names.push(preset.parameters[p].name.clone());
            initials.push(preset.parameters[p].initial);
            p = p + 1;
        }
        proof {
            assert(spec_name_views(param_names@) =~= spec_param_names(preset));
            assert(initials@ =~= spec_param_initials(preset));
        }
        if !distinct_strings(&param_names) {
            return Err(FilterChainError::InvalidParameter);
        }
        let param_names_seed = clone_strings(&param_names);

        let mut aliases: Vec<Alias> = Vec::new();
        let mut a: usize = 0;
        while a < preset.passes.len()
            invariant
                a <= preset.passes@.len(),
                preset.passes@.len() <= u32::MAX,
                aliases@.map_values(|al: Alias| (al.name@, al.pass)) == spec_aliases_of(
                    preset.passes@.subrange(0, a as int),
                ),
            decreases preset.passes@.len() - a,
        {
            match &preset.passes[a].alias {
                Some(n) => {
                    aliases.push(Alias { name: n.clone(), pass: a as u32 });
                },
                None => {
                },
            }
            proof {
                assert(preset.passes@.subrange(0, a + 1).drop_last() =~= preset.passes@.subrange(
                    0,
                    a as int,
                ));
                assert(preset.passes@.subrange(0, a + 1).last() == preset.passes@[a as int]);
                assert(aliases@.map_values(|al: Alias| (al.name@, al.pass)) =~= spec_aliases_of(
                    preset.passes@.subrange(0, a + 1),
                ));
            }
            a = a + 1;
        }
        proof {
            assert(preset.passes@.subrange(0, preset.passes@.len() as int) =~= preset.passes@);
        }

        let mut ctx = BindingContext {
            pass_index: 0,
            total_passes: total,
            aliases,
            lut_names,
            param_names,
        };

        // Bind every pass's reflection.
        let mut tables: Vec<BindingTable> = Vec::new();
        let mut b: usize = 0;
        while b < total_usize
            invariant
                b <= total_usize,
                total_usize == preset.passes@.len(),
                total_usize == reflections@.len(),
                total == total_usize,
                total_usize <= u32::MAX,
                ctx.total_passes == total,
                ctx.aliases@.map_values(|al: Alias| (al.name@, al.pass)) == spec_aliases_of(
                    preset.passes@,
                ),
                spec_name_views(ctx.lut_names@) == spec_lut_names(preset),
                spec_name_views(ctx.param_names@) == spec_param_names(preset),
                ctx.lut_names@.len() == preset.textures@.len() <= u32::MAX,
                ctx.param_names@.len() == preset.parameters@.len() <= u32::MAX,
                tables@.len() == b,
                forall|j: int|
                    0 <= j < b ==> spec_has_ctx(#[trigger] tables@[j], reflections@[j], preset, j as nat),
            decreases total_usize - b,
        {
            ctx.pass_index = b as u32;
            let ghost pre_tables = tables@;
            match bind_reflection(&reflections[b], &ctx) {
                Ok(t) => {
                    tables.push(t);
                    proof {
                        assert forall|j: int| 0 <= j < b + 1 implies spec_has_ctx(
                            #[trigger] tables@[j],
                            reflections@[j],
                            preset,
                            j as nat,
                        ) by {
                            if j < b {
                                assert(tables@[j] == pre_tables[j]);
                            } else {
                                assert(spec_ctx_for(ctx, preset, j as nat) && spec_table_matches(
                                    tables@[j],
                                    reflections@[j],
                                    ctx,
                                ));
                            }
                        }
                    }
                },
                Err(e) => {
                    proof {
                        if spec_create_shape_ok(preset, reflections@, lut_sizes@) && (forall|
                            i: int,
                        |
                            0 <= i < preset.passes@.len() ==> spec_pass_binds(
                                preset,
                                #[trigger] reflections@[i],
                                i as nat,
                            )) {
                            assert(spec_pass_binds(preset, reflections@[b as int], b as nat));
                            let cw = choose|c: BindingContext|
                                #[trigger] spec_ctx_for(c, preset, b as nat)
                                    && crate::binding::spec_reflection_ok(
                                    reflections@[b as int],
                                    c,
                                ) && spec_block_disjoint(
                                    crate::binding::spec_uniform_entries(
                                        reflections@[b as int],
                                        c,
                                    ),
                                    UniformBlock::Ubo,
                                ) && spec_block_disjoint(
                                    crate::binding::spec_uniform_entries(
                                        reflections@[b as int],
                                        c,
                                    ),
                                    UniformBlock::Push,
                                ) && spec_refl_history(reflections@[b as int], c) < usize::MAX;
                            assert(spec_ctx_for(ctx, preset, b as nat));
                            lemma_binding_congruent(
                                reflections@[b as int],
                                preset,
                                b as nat,
                                cw,
                                ctx,
                            );
                            assert(false);
                        }
                    }
                    return Err(e);
                },
            }
            b = b + 1;
        }

        // Derived requirements: history depth and the feedback set.
        let required = tables_history(&tables);
        let mut flags: Vec<bool> = Vec::new();
        let mut f: usize = 0;
        while f < total_usize
            invariant
                f <= total_usize,
                total_usize <= u32::MAX,
                flags@.len() == f,
                forall|j: int|
                    0 <= j < f ==> #[trigger] flags@[j] == spec_feedback_referenced(
                        tables@,
                        j as u32,
                    ),
            decreases total_usize - f,
        {
            let flag = any_refs_feedback(&tables, f as u32);
            flags.push(flag);
            f = f + 1;
        }

        // Assemble the per-pass plans.
        let ghost orig_passes = preset.passes@;
        let ghost orig_tables = tables@;
        let mut passes_vec = preset.passes;
        let mut plans: Vec<PassPlan> = Vec::new();
        let mut k: usize = 0;
        while k < total_usize
            invariant
                k <= total_usize,
                total_usize == orig_passes.len(),
                total_usize == reflections@.len(),
                total == total_usize,
                total_usize <= u32::MAX,
                n_luts == preset.textures@.len(),
                n_params == preset.parameters@.len(),
                flags@.len() == total_usize,
                orig_tables.len() == total_usize,
                orig_passes == preset.passes@,
                required == spec_required_history(orig_tables),
                forall|j: int|
                    0 <= j < total_usize ==> spec_has_ctx(
                        #[trigger] orig_tables[j],
                        reflections@[j],
                        preset,
                        j as nat,
                    ),
                passes_vec@ == orig_passes.subrange(k as int, total_usize as int),
                tables@ == orig_tables.subrange(k as int, total_usize as int),
                plans@.len() == k,
                forall|j: int|
                    0 <= j < k ==> {
                        let pl = #[trigger] plans@[j];
                        &&& pl.config == orig_passes[j]
                        &&& pl.table == orig_tables[j]
                        &&& pl.ubo_size == reflections@[j].ubo_size
                        &&& pl.push_size == reflections@[j].push_size
                        &&& pl.mipmap == (orig_passes[j].mipmap && !force_no_mipmaps)
                        &&& pl.feedback == flags@[j]
                        &&& spec_plan_bounded(
                            pl,
                            j as nat,
                            total as nat,
                            n_luts as nat,
                            required as nat,
                            n_params as nat,
                        )
                    },
            decreases total_usize - k,
        {
            let cfg = passes_vec.remove(0);
            let tbl = tables.remove(0);
            proof {
                assert(passes_vec@ =~= orig_passes.subrange(k + 1, total_usize as int));
                assert(tables@ =~= orig_tables.subrange(k + 1, total_usize as int));
            }
            let mip = cfg.mipmap && !force_no_mipmaps;
            let fb = flags[k];
            let plan = PassPlan {
                config: cfg,
                table: tbl,
                ubo_size: reflections[k].ubo_size,
                push_size: reflections[k].push_size,
                mipmap: mip,
                feedback: fb,
            };
            if !check_plan_bounded(&plan, k as u32, total, n_luts, required, n_params) {
                proof {
                    if spec_create_shape_ok(preset, reflections@, lut_sizes@) && (forall|i: int|
                        0 <= i < preset.passes@.len() ==> spec_pass_binds(
                            preset,
                            #[trigger] reflections@[i],
                            i as nat,
                        )) {
                        lemma_plan_bounded_from_binds(
                            plan,
                            preset,
                            reflections@[k as int],
                            orig_tables,
                            k as int,
                            n_luts as nat,
                            required as nat,
                            n_params as nat,
                        );
                        assert(false);
                    }
                }
                return Err(FilterChainError::InvalidBinding);
            }
            plans.push(plan);
            k = k + 1;
        }
        proof {
            assert(spec_tables_of(plans@) =~= orig_tables);
            assert forall|i: int|
                0 <= i < preset.passes@.len() implies (
            #[trigger] preset.passes@[i]).scaling.wf() by {
                assert(plans@[i].config == orig_passes[i]);
                assert(spec_plan_bounded(
                    plans@[i],
                    i as nat,
                    total as nat,
                    n_luts as nat,
                    required as nat,
                    n_params as nat,
                ));
            }
            assert(spec_create_shape_ok(preset, reflections@, lut_sizes@));
        }

        // Pooled images: every render target starts at one texel.
        if required as u64 >= usize::MAX as u64 {
            proof {
                if spec_create_shape_ok(preset, reflections@, lut_sizes@) && (forall|i: int|
                    0 <= i < preset.passes@.len() ==> spec_pass_binds(
                        preset,
                        #[trigger] reflections@[i],
                        i as nat,
                    )) {
                    assert forall|t: int| 0 <= t < orig_tables.len() implies spec_table_history(
                        #[trigger] orig_tables[t],
                    ) < usize::MAX by {
                        assert(spec_has_ctx(orig_tables[t], reflections@[t], preset, t as nat));
                        let ch = choose|c: BindingContext|
                            spec_ctx_for(c, preset, t as nat) && #[trigger] spec_table_matches(
                                orig_tables[t],
                                reflections@[t],
                                c,
                            );
                        assert(spec_pass_binds(preset, reflections@[t], t as nat));
                        let cw = choose|c: BindingContext|
                            #[trigger] spec_ctx_for(c, preset, t as nat)
                                && crate::binding::spec_reflection_ok(reflections@[t], c)
                                && spec_block_disjoint(
                                crate::binding::spec_uniform_entries(reflections@[t], c),
                                UniformBlock::Ubo,
                            ) && spec_block_disjoint(
                                crate::binding::spec_uniform_entries(reflections@[t], c),
                                UniformBlock::Push,
                            ) && spec_refl_history(reflections@[t], c) < usize::MAX;
                        lemma_binding_congruent(reflections@[t], preset, t as nat, cw, ch);
                        assert(orig_tables[t].uniforms@ == crate::binding::spec_uniform_entries(
                            reflections@[t],
                            cw,
                        ));
                        assert(orig_tables[t].textures@ == crate::binding::spec_texture_entries(
                            reflections@[t],
                            cw,
                        ));
                    }
                    lemma_required_lt(orig_tables, usize::MAX as nat);
                    assert(false);
                }
            }
            return Err(FilterChainError::AllocationFailed);
        }
        let mut alloc = ImageAllocator::new();
        let mut outputs: Vec<OwnedImage> = Vec::new();
        let mut oi: usize = 0;
        while oi < total_usize
            invariant
                oi <= total_usize,
                total_usize <= u32::MAX,
                plans@.len() == total_usize,
                alloc.next <= 1 + oi,
                outputs@.len() == oi,
                forall|j: int| 0 <= j < oi ==> (#[trigger] outputs@[j]).wf(),
            decreases total_usize - oi,
        {
            match OwnedImage::new(&mut alloc, Size { width: 1, height: 1 }, plans[oi].config.format, false) {
                Ok(img) => {
                    outputs.push(img);
                },
                Err(e) => {
                    proof {
                        assert(false);
                    }
                    return Err(e);
                },
            }
            oi = oi + 1;
        }

        let ring_len: usize = if required == 0 {
            0
        } else {
            required as usize + 1
        };
        let mut history: Vec<OwnedImage> = Vec::new();
        let mut hi: usize = 0;
        while hi < ring_len
            invariant
                hi <= ring_len,
                total_usize == preset.passes@.len(),
                total_usize <= u32::MAX,
                ring_len == (if required == 0 { 0int } else { required + 1 }),
                alloc.next <= 1 + total_usize + hi,
                history@.len() == hi,
                forall|j: int| 0 <= j < hi ==> (#[trigger] history@[j]).wf(),
            decreases ring_len - hi,
        {
            match OwnedImage::new(&mut alloc, Size { width: 1, height: 1 }, ImageFormat::R8G8B8A8Unorm, false) {
                Ok(img) => {
                    history.push(img);
                },
                Err(e) => {
                    proof {
                        assert(false);
                    }
                    return Err(e);
                },
            }
            hi = hi + 1;
        }

        let mut feedback_back: Vec<Option<OwnedImage>> = Vec::new();
        let mut fi: usize = 0;
        while fi < total_usize
            invariant
                fi <= total_usize,
                total_usize <= u32::MAX,
                plans@.len() == total_usize,
                ring_len == (if required == 0 { 0int } else { required + 1 }),
                alloc.next <= 1 + total_usize + ring_len + fi,
                feedback_back@.len() == fi,
                forall|j: int|
                    0 <= j < fi ==> ((#[trigger] feedback_back@[j]) is Some <==> plans@[j].feedback),
                forall|j: int|
                    0 <= j < fi && (#[trigger] feedback_back@[j]) is Some
                        ==> feedback_back@[j]->0.wf(),
            decreases total_usize - fi,
        {
            if plans[fi].feedback {
                match OwnedImage::new(&mut alloc, Size { width: 1, height: 1 }, plans[fi].config.format, false) {
                    Ok(img) => {
                        feedback_back.push(Some(img));
                    },
                    Err(e) => {
                        proof {
                            assert(false);
                        }
                        return Err(e);
                    },
                }
            } else {
                feedback_back.push(None);
            }
            fi = fi + 1;
        }

        let mut luts: Vec<LutPlan> = Vec::new();
        let mut li: usize = 0;
        while li < lut_sizes.len()
            invariant
                li <= lut_sizes@.len(),
                lut_sizes@.len() == preset.textures@.len(),
                preset.textures@.len() <= u32::MAX,
                total_usize == preset.passes@.len(),
                total_usize <= u32::MAX,
                ring_len == (if required == 0 { 0int } else { required + 1 }),
                alloc.next <= 1 + 2 * total_usize + ring_len + li,
                forall|j: int|
                    0 <= j < lut_sizes@.len() ==> (#[trigger] lut_sizes@[j]).width >= 1
                        && lut_sizes@[j].height >= 1,
                luts@.len() == li,
                forall|j: int|
                    0 <= j < li ==> {
                        let lp = #[trigger] luts@[j];
                        &&& lp.image.size == lut_sizes@[j]
                        &&& lp.filter == preset.textures@[j].filter
                        &&& lp.wrap_mode == preset.textures@[j].wrap_mode
                        &&& lp.image.levels == (if preset.textures@[j].mipmap {
                            spec_miplevels(lut_sizes@[j])
                        } else {
                            1nat
                        })
                    },
            decreases lut_sizes@.len() - li,
        {
            let tex_mip = preset.textures[li].mipmap;
            match OwnedImage::new(&mut alloc, lut_sizes[li], ImageFormat::R8G8B8A8Unorm, tex_mip) {
                Ok(img) => {
                    luts.push(
                        LutPlan {
                            image: ImageRef {
                                id: img.id,
                                size: img.size,
                                format: img.format,
                                levels: img.max_mipmap,
                            },
                            filter: preset.textures[li].filter,
                            wrap_mode: preset.textures[li].wrap_mode,
                        },
                    );
                },
                Err(e) => {
                    proof {
                        assert(false);
                    }
                    return Err(e);
                },
            }
            li = li + 1;
        }

        let params = RuntimeParameters::new(param_names_seed, initials, total_usize);
        let samplers = SamplerSet::new(0);
        let ghost ring_tags = Seq::new(ring_len as nat, |i: int| -1int);
        let ghost out_tags = Seq::new(total_usize as nat, |i: int| -1int);
        let ghost fb_tags = Seq::new(total_usize as nat, |i: int| -1int);
        let chain = FilterChain {
            passes: plans,
            outputs,
            history,
            feedback_back,
            luts,
            samplers,
            params,
            alloc,
            required_history: required,
            history_src: Ghost(ring_tags),
            outputs_src: Ghost(out_tags),
            feedback_src: Ghost(fb_tags),
        };
        Ok(chain)
    }
}

/// The frame options that apply when the caller passes none.
pub open spec fn spec_frame_opts(options: Option<FrameOptions>) -> FrameOptions {
    match options {
        Option::Some(o) => o,
        Option::None => FrameOptions { clear_history: false, frame_direction: 1 },
    }
}

/// The projection words a frame uses: the caller's, or the default.
pub open spec fn spec_mvp_words(mvp: Option<Seq<u32>>) -> Seq<u32> {
    match mvp {
        Option::Some(m) => m,
        Option::None => spec_default_mvp(),
    }
}

impl FilterChain {
    /// Record the transitions, draw and mip regeneration of every enabled
    /// pass, in pass order, against the chain's current images.
    #[verifier::rlimit(100)]
    fn record_draws(
        &self,
        cmds: &mut Vec<FrameCmd>,
        input: ImageRef,
        viewport: &Viewport,
        output: ImageRef,
        frame_index: u64,
        mvp_words: Vec<u32>,
        direction: i32,
        snapshot: Vec<u32>,
        active: usize,
    ) -> (ctxg: Ghost<FrameCtx>)
        requires
            self.wf(),
            1 <= active <= self.pass_count(),
            snapshot@.len() == self.param_state().values_view().len(),
            mvp_words@.len() == 16,
            forall|ci: int| 0 <= ci < old(cmds)@.len() ==> !((#[trigger] old(cmds)@[ci]) is Draw),
        ensures
            ctxg@ == spec_frame_ctx(
                *self,
                input,
                output,
                *viewport,
                frame_index,
                direction,
                mvp_words@,
                snapshot@,
                active as nat,
            ),
            spec_cmds_ok(final(cmds)@, ctxg@),
            spec_draw_passes(final(cmds)@) == Seq::new(active as nat, |t: int| t as u32),
            final(cmds)@.len() >= old(cmds)@.len(),
            forall|ci: int| 0 <= ci < old(cmds)@.len() ==> final(cmds)@[ci] == old(cmds)@[ci],
            forall|ci: int|
                old(cmds)@.len() <= ci < final(cmds)@.len() ==> !((#[trigger] final(cmds)@[ci])
                    is Clear) && !(final(cmds)@[ci] is CopyImage),
            spec_draws_structured(final(cmds)@, ctxg@),
    {
        let ghost prep_snap = cmds@;
        let ghost prep_len = cmds@.len() as int;
        let ghost plans0 = self.passes@;
        let n = self.passes.len();
        let vp_size = Size { width: viewport.width, height: viewport.height };
        proof {
            self.params.lemma_wf_bounds();
        }
        // The frame's uniform environment, shared by every pass but for the
        // per-pass output size, source size and frame count.
        let hl2 = self.history.len();
        let mut history_sizes: Vec<Size> = Vec::new();
        let mut xs: usize = 0;
        #[verifier::loop_isolation(false)]
        while xs < hl2
            invariant
                xs <= hl2,
                history_sizes@ == self.history@.subrange(0, xs as int).map_values(
                    |h: OwnedImage| h.size,
                ),
            decreases hl2 - xs,
        {
            let sz = self.history[xs].size;
            history_sizes.push(sz);
            proof {
                assert(self.history@.subrange(0, xs + 1).drop_last() =~= self.history@.subrange(
                    0,
                    xs as int,
                ));
                assert(history_sizes@ =~= self.history@.subrange(0, xs + 1).map_values(
                    |h: OwnedImage| h.size,
                ));
            }
            xs = xs + 1;
        }
        proof {
            assert(self.history@.subrange(0, hl2 as int) =~= self.history@);
        }
        let mut pass_output_sizes: Vec<Size> = Vec::new();
        let mut ys: usize = 0;
        #[verifier::loop_isolation(false)]
        while ys < n
            invariant
                ys <= n,
                pass_output_sizes@ == self.outputs@.subrange(0, ys as int).map_values(
                    |h: OwnedImage| h.size,
                ),
            decreases n - ys,
        {
            let sz = self.outputs[ys].size;
            pass_output_sizes.push(sz);
            proof {
                assert(self.outputs@.subrange(0, ys + 1).drop_last() =~= self.outputs@.subrange(
                    0,
                    ys as int,
                ));
                assert(pass_output_sizes@ =~= self.outputs@.subrange(0, ys + 1).map_values(
                    |h: OwnedImage| h.size,
                ));
            }
            ys = ys + 1;
        }
        proof {
            assert(self.outputs@.subrange(0, n as int) =~= self.outputs@);
        }
        let mut feedback_sizes: Vec<Size> = Vec::new();
        let mut zs: usize = 0;
        #[verifier::loop_isolation(false)]
        while zs < n
            invariant
                zs <= n,
                feedback_sizes@ == self.feedback_back@.subrange(0, zs as int).map_values(
                    |h: Option<OwnedImage>|
                        match h {
                            Option::Some(img) => img.size,
                            Option::None => Size { width: 1u32, height: 1u32 },
                        },
                ),
            decreases n - zs,
        {
            let sz = match &self.feedback_back[zs] {
                Some(b) => b.size,
                None => Size { width: 1, height: 1 },
            };
            feedback_sizes.push(sz);
            proof {
                assert(self.feedback_back@.subrange(0, zs + 1).drop_last()
                    =~= self.feedback_back@.subrange(0, zs as int));
                assert(feedback_sizes@ =~= self.feedback_back@.subrange(0, zs + 1).map_values(
                    |h: Option<OwnedImage>|
                        match h {
                            Option::Some(img) => img.size,
                            Option::None => Size { width: 1u32, height: 1u32 },
                        },
                ));
            }
            zs = zs + 1;
        }
        proof {
            assert(self.feedback_back@.subrange(0, n as int) =~= self.feedback_back@);
        }
        let nl = self.luts.len();
        let mut lut_sizes_v: Vec<Size> = Vec::new();
        let mut ws: usize = 0;
        #[verifier::loop_isolation(false)]
        while ws < nl
            invariant
                ws <= nl,
                lut_sizes_v@ == self.luts@.subrange(0, ws as int).map_values(
                    |l: LutPlan| l.image.size,
                ),
            decreases nl - ws,
        {
            let sz = self.luts[ws].image.size;
            lut_sizes_v.push(sz);
            proof {
                assert(self.luts@.subrange(0, ws + 1).drop_last() =~= self.luts@.subrange(
                    0,
                    ws as int,
                ));
                assert(lut_sizes_v@ =~= self.luts@.subrange(0, ws + 1).map_values(
                    |l: LutPlan| l.image.size,
                ));
            }
            ws = ws + 1;
        }
        proof {
            assert(self.luts@.subrange(0, nl as int) =~= self.luts@);
        }
        let mut env = crate::packer::UniformEnv {
            mvp: mvp_words,
            output_size: vp_size,
            viewport_size: vp_size,
            frame_count: 0,
            frame_direction: direction,
            original_size: input.size,
            source_size: input.size,
            history_sizes,
            pass_output_sizes,
            feedback_sizes,
            lut_sizes: lut_sizes_v,
            params: snapshot,
        };
        let ghost fctx = FrameCtx {
            plans: self.passes@,
            outputs: self.outputs@,
            history: self.history@,
            feedback: self.feedback_back@,
            luts: self.luts@,
            samplers: self.samplers.view_handles(),
            input,
            output,
            vp: *viewport,
            frame_index,
            direction,
            mvp_words: env.mvp@,
            snapshot: env.params@,
            active: active as nat,
        };
        proof {
            lemma_draw_passes_empty(cmds@);
            assert(spec_draw_passes(cmds@) =~= Seq::new(0nat, |t: int| t as u32));
            assert(spec_draws_structured(cmds@, fctx));
        }

        // One draw per enabled pass, in pass order: transitions first, the
        // draw itself, then mip regeneration on intermediate targets.
        let mut d: usize = 0;
        #[verifier::loop_isolation(false)]
        while d < active
            invariant
                d <= active,
                spec_cmds_ok(cmds@, fctx),
                spec_draw_passes(cmds@) == Seq::new(d as nat, |t: int| t as u32),
                cmds@.len() >= prep_len,
                forall|ci: int| 0 <= ci < prep_len ==> cmds@[ci] == prep_snap[ci],
                forall|ci: int|
                    prep_len <= ci < cmds@.len() ==> !((#[trigger] cmds@[ci]) is Clear) && !(
                    cmds@[ci] is CopyImage),
                spec_draws_structured(cmds@, fctx),
                env.mvp@ == fctx.mvp_words,
                env.params@ == fctx.snapshot,
                env.viewport_size == spec_vp_size(*viewport),
                env.frame_direction == direction,
                env.original_size == input.size,
                env.history_sizes@ == fctx.history.map_values(|h: OwnedImage| h.size),
                env.pass_output_sizes@ == fctx.outputs.map_values(|h: OwnedImage| h.size),
                env.feedback_sizes@ == fctx.feedback.map_values(
                    |h: Option<OwnedImage>|
                        match h {
                            Option::Some(img) => img.size,
                            Option::None => Size { width: 1u32, height: 1u32 },
                        },
                ),
                env.lut_sizes@ == fctx.luts.map_values(|l: LutPlan| l.image.size),
            decreases active - d,
        {
            let last = d + 1 == active;
            proof {
                assert(spec_plan_bounded(
                    plans0[d as int],
                    d as nat,
                    n as nat,
                    self.luts@.len(),
                    self.required_history as nat,
                    self.params.values_view().len(),
                ));
            }
            let nt = self.passes[d].table.textures.len();
            let mut bts: Vec<BoundTexture> = Vec::new();
            let mut t: usize = 0;
            #[verifier::loop_isolation(false)]
            while t < nt
                invariant
                    t <= nt,
                    bts@ == self.passes@[d as int].table.textures@.subrange(0, t as int).map_values(
                        |e: crate::binding::TextureBinding| spec_bound_tex(e, fctx, d as int),
                    ),
                decreases nt - t,
            {
                let slot = self.passes[d].table.textures[t].binding;
                let sem = self.passes[d].table.textures[t].semantic;
                proof {
                    assert(spec_tex_bounded(
                        sem,
                        d as nat,
                        n as nat,
                        self.luts@.len(),
                        self.required_history as nat,
                    ));
                }
                let img: ImageRef = match sem {
                    TextureSemantic::Original => input,
                    TextureSemantic::Source => if d == 0 {
                        input
                    } else {
                        image_ref(&self.outputs[d - 1])
                    },
                    TextureSemantic::OriginalHistory(k) => if k == 0 {
                        input
                    } else {
                        image_ref(&self.history[k as usize])
                    },
                    TextureSemantic::PassOutput(j) => image_ref(&self.outputs[j as usize]),
                    TextureSemantic::PassFeedback(j) => match &self.feedback_back[j as usize] {
                        Some(b) => image_ref(b),
                        None => input,
                    },
                    TextureSemantic::User(j) => self.luts[j as usize].image,
                };
                let wrap = match sem {
                    TextureSemantic::User(j) => self.luts[j as usize].wrap_mode,
                    _ => self.passes[d].config.wrap_mode,
                };
                let filt = match sem {
                    TextureSemantic::User(j) => self.luts[j as usize].filter,
                    _ => self.passes[d].config.filter,
                };
                let mipf = match filt {
                    FilterMode::Linear => MipFilterMode::Linear,
                    FilterMode::Nearest => MipFilterMode::Nearest,
                };
                let smp = self.samplers.get(wrap, filt, filt, mipf);
                bts.push(
                    BoundTexture {
                        slot,
                        semantic: sem,
                        image: img,
                        wrap_mode: wrap,
                        filter: filt,
                        mip_filter: mipf,
                        sampler: smp,
                    },
                );
                proof {
                    assert(self.passes@[d as int].table.textures@.subrange(0, t + 1).drop_last()
                        =~= self.passes@[d as int].table.textures@.subrange(0, t as int));
                    assert(bts@.last() == spec_bound_tex(
                        self.passes@[d as int].table.textures@[t as int],
                        fctx,
                        d as int,
                    ));
                    assert(bts@ =~= self.passes@[d as int].table.textures@.subrange(
                        0,
                        t + 1,
                    ).map_values(|e: crate::binding::TextureBinding| spec_bound_tex(e, fctx, d as int)));
                }
                t = t + 1;
            }
            proof {
                assert(self.passes@[d as int].table.textures@.subrange(0, nt as int)
                    =~= self.passes@[d as int].table.textures@);
            }
            env.output_size = if last {
                vp_size
            } else {
                self.outputs[d].size
            };
            env.source_size = if d == 0 {
                input.size
            } else {
                self.outputs[d - 1].size
            };
            let fcm = self.passes[d].config.frame_count_mod;
            env.frame_count = if fcm > 0 {
                (frame_index % (fcm as u64)) as u32
            } else {
                frame_index as u32
            };
            proof {
                assert(env@ =~= spec_env_of(fctx, d as int));
                assert forall|kk: int|
                    0 <= kk < self.passes@[d as int].table.uniforms@.len() implies {
                    let e = #[trigger] self.passes@[d as int].table.uniforms@[kk];
                    &&& (e.block == UniformBlock::Ubo ==> crate::packer::spec_entry_fits(
                        e,
                        self.passes@[d as int].ubo_size as nat,
                    ))
                    &&& (e.block == UniformBlock::Push ==> crate::packer::spec_entry_fits(
                        e,
                        self.passes@[d as int].push_size as nat,
                    ))
                    &&& crate::packer::spec_env_covers(env@, e.semantic)
                } by {
                    let e = self.passes@[d as int].table.uniforms@[kk];
                    assert(spec_uni_bounded(
                        e.semantic,
                        d as nat,
                        n as nat,
                        self.luts@.len(),
                        self.required_history as nat,
                        self.params.values_view().len(),
                    ));
                    if e.block != UniformBlock::Ubo {
                        assert(e.block == UniformBlock::Push);
                    }
                }
            }
            let ubo = crate::packer::pack_block(
                &self.passes[d].table.uniforms,
                UniformBlock::Ubo,
                self.passes[d].ubo_size as usize,
                &env,
            );
            let push_buf = crate::packer::pack_block(
                &self.passes[d].table.uniforms,
                UniformBlock::Push,
                self.passes[d].push_size as usize,
                &env,
            );
            let target = if last {
                output
            } else {
                image_ref(&self.outputs[d])
            };
            let out_sz = if last {
                vp_size
            } else {
                self.outputs[d].size
            };
            let mut ti: usize = 0;
            #[verifier::loop_isolation(false)]
            while ti < bts.len()
                invariant
                    ti <= bts@.len(),
                    spec_cmds_ok(cmds@, fctx),
                    spec_draw_passes(cmds@) == Seq::new(d as nat, |t: int| t as u32),
                    cmds@.len() >= prep_len,
                    forall|ci: int| 0 <= ci < prep_len ==> cmds@[ci] == prep_snap[ci],
                    forall|ci: int|
                        prep_len <= ci < cmds@.len() ==> !((#[trigger] cmds@[ci]) is Clear) && !(
                        cmds@[ci] is CopyImage),
                    spec_draws_structured(cmds@, fctx),
                    forall|tp: int|
                        0 <= tp < ti ==> spec_stream_contains(
                            cmds@,
                            FrameCmd::Transition {
                                image: (#[trigger] bts@[tp]).image,
                                state: ResourceState::ShaderRead,
                            },
                        ),
                decreases bts@.len() - ti,
            {
                let im = bts[ti].image;
                push_cmd(
                    cmds,
                    FrameCmd::Transition { image: im, state: ResourceState::ShaderRead },
                    Ghost(fctx),
                );
                proof {
                    assert(spec_draw_passes(cmds@) =~= Seq::new(d as nat, |t: int| t as u32));
                    assert(cmds@[cmds@.len() - 1] == (FrameCmd::Transition {
                        image: bts@[ti as int].image,
                        state: ResourceState::ShaderRead,
                    }));
                }
                ti = ti + 1;
            }
            let ghost pre_rt = cmds@;
            push_cmd(
                cmds,
                FrameCmd::Transition { image: target, state: ResourceState::RenderTarget },
                Ghost(fctx),
            );
            let ghost pre_draw = cmds@;
            proof {
                assert(spec_draw_passes(cmds@) =~= Seq::new(d as nat, |t: int| t as u32));
                assert(pre_draw.last() == (FrameCmd::Transition {
                    image: target,
                    state: ResourceState::RenderTarget,
                }));
            }
            let mip_here = self.passes[d].mipmap;
            let ghost bts_snap = bts@;
            let dcmd = FrameCmd::Draw {
                pass: d as u32,
                target,
                out_size: out_sz,
                viewport_x: if last {
                    viewport.x
                } else {
                    0
                },
                viewport_y: if last {
                    viewport.y
                } else {
                    0
                },
                textures: bts,
                ubo,
                push: push_buf,
            };
            let ghost dghost = dcmd;
            let ghost dpos = pre_draw.len() as int;
            proof {
                assert(spec_draw_ok(dcmd, fctx));
            }
            push_cmd(cmds, dcmd, Ghost(fctx));
            proof {
                assert(spec_draw_passes(cmds@) =~= Seq::new((d + 1) as nat, |t: int| t as u32));
                assert(cmds@[dpos] == dghost);
            }
            if mip_here && !last {
                push_cmd(cmds, FrameCmd::GenerateMipmaps { image: target }, Ghost(fctx));
                proof {
                    assert(spec_draw_passes(cmds@) =~= Seq::new((d + 1) as nat, |t: int| t as u32));
                    assert(cmds@[dpos + 1] == (FrameCmd::GenerateMipmaps { image: target }));
                }
            }
            if !last {
                push_cmd(
                    cmds,
                    FrameCmd::Transition { image: target, state: ResourceState::ShaderRead },
                    Ghost(fctx),
                );
                proof {
                    assert(spec_draw_passes(cmds@) =~= Seq::new((d + 1) as nat, |t: int| t as u32));
                }
            }
            proof {
                let endc = cmds@;
                // The tail this pass appended, element by element.
                assert(endc[dpos] == dghost);
                assert(endc[dpos - 1] == (FrameCmd::Transition {
                    image: target,
                    state: ResourceState::RenderTarget,
                }));
                assert(mip_here && !last ==> endc[dpos + 1] == (FrameCmd::GenerateMipmaps {
                    image: target,
                }));
                assert forall|ci: int| dpos < ci < endc.len() implies !((#[trigger] endc[ci])
                    is Draw) && !(endc[ci] is Clear) && !(endc[ci] is CopyImage) by {
                    if mip_here && !last {
                        assert(ci == dpos + 1 || ci == dpos + 2);
                    } else {
                        assert(ci == dpos + 1);
                    }
                }
                assert forall|ci: int| 0 <= ci < dpos - 1 implies #[trigger] endc[ci]
                    == pre_rt[ci] by {}
                // Prefix facts for the outer loop.
                assert forall|ci: int| 0 <= ci < prep_len implies #[trigger] endc[ci]
                    == prep_snap[ci] by {
                    assert(endc[ci] == pre_rt[ci]);
                }
                assert forall|ci: int|
                    prep_len <= ci < endc.len() implies !((#[trigger] endc[ci]) is Clear) && !(
                    endc[ci] is CopyImage) by {
                    if ci < dpos - 1 {
                        assert(endc[ci] == pre_rt[ci]);
                    }
                }
                lemma_pass_tail_structured(
                    pre_rt,
                    endc,
                    fctx,
                    dghost,
                    target,
                    bts_snap,
                    dpos,
                    mip_here,
                    last,
                    d as int,
                );
            }
            d = d + 1;
        }

        Ghost(fctx)
    }
}

/// After one pass's commands are appended - the target transition, the
/// draw, mip regeneration when the pass keeps a chain and is not final,
/// and an optional trailing transition - the whole stream keeps the
/// per-pass shape.
proof fn lemma_tail_target_transition(
    pre_rt: Seq<FrameCmd>,
    endc: Seq<FrameCmd>,
    k: FrameCtx,
    dghost: FrameCmd,
    target: ImageRef,
    dpos: int,
)
    requires
        spec_draws_structured(pre_rt, k),
        dpos == pre_rt.len() + 1,
        dpos < endc.len() <= dpos + 3,
        forall|ci: int| 0 <= ci < pre_rt.len() ==> #[trigger] endc[ci] == pre_rt[ci],
        endc[dpos - 1] == (FrameCmd::Transition {
            image: target,
            state: ResourceState::RenderTarget,
        }),
        endc[dpos] == dghost,
        dghost is Draw,
        dghost->Draw_target == target,
        forall|ci: int| dpos < ci < endc.len() ==> !((#[trigger] endc[ci]) is Draw),
    ensures
        forall|ci: int|
            0 <= ci < endc.len() ==> ((#[trigger] endc[ci]) matches FrameCmd::Draw {
                target: tg,
                ..
            } ==> ci >= 1 && endc[ci - 1] == (FrameCmd::Transition {
                image: tg,
                state: ResourceState::RenderTarget,
            })),
{
    assert forall|ci: int| 0 <= ci < endc.len() implies ((#[trigger] endc[ci])
        matches FrameCmd::Draw { target: tg, .. } ==> ci >= 1 && endc[ci - 1]
        == (FrameCmd::Transition {
        image: tg,
        state: ResourceState::RenderTarget,
    })) by {
        if ci < dpos - 1 {
            assert(endc[ci] == pre_rt[ci]);
            if endc[ci] is Draw {
                assert(pre_rt[ci - 1] == endc[ci - 1]);
            }
        } else if ci == dpos - 1 {
            assert(!(endc[ci] is Draw));
        }
    }
}

#[verifier::rlimit(100)]
proof fn lemma_tail_mip_follows(
    pre_rt: Seq<FrameCmd>,
    endc: Seq<FrameCmd>,
    k: FrameCtx,
    dghost: FrameCmd,
    target: ImageRef,
    dpos: int,
    mip: bool,
    last: bool,
    d: int,
)
    requires
        forall|ci: int|
            0 <= ci < pre_rt.len() ==> ((#[trigger] pre_rt[ci]) matches FrameCmd::Draw {
                pass: pp,
                target: tg,
                ..
            } ==> (((pp as nat) + 1 < k.active && k.plans[pp as int].mipmap) ==> ci + 1
                < pre_rt.len() && pre_rt[ci + 1] == (FrameCmd::GenerateMipmaps { image: tg }))),
        dpos == pre_rt.len() + 1,
        dpos < endc.len() <= dpos + 3,
        forall|ci: int| 0 <= ci < pre_rt.len() ==> #[trigger] endc[ci] == pre_rt[ci],
        endc[dpos - 1] == (FrameCmd::Transition {
            image: target,
            state: ResourceState::RenderTarget,
        }),
        endc[dpos] == dghost,
        dghost is Draw,
        dghost->Draw_pass == d as u32,
        dghost->Draw_target == target,
        0 <= d < k.plans.len(),
        d <= u32::MAX,
        ((d as nat) + 1 < k.active) <==> !last,
        mip == k.plans[d].mipmap,
        mip && !last ==> dpos + 1 < endc.len() && endc[dpos + 1] == (FrameCmd::GenerateMipmaps {
            image: target,
        }),
        forall|ci: int| dpos < ci < endc.len() ==> !((#[trigger] endc[ci]) is Draw),
    ensures
        forall|ci: int|
            0 <= ci < endc.len() ==> ((#[trigger] endc[ci]) matches FrameCmd::Draw {
                pass: pp,
                target: tg,
                ..
            } ==> (((pp as nat) + 1 < k.active && k.plans[pp as int].mipmap) ==> ci + 1
                < endc.len() && endc[ci + 1] == (FrameCmd::GenerateMipmaps { image: tg }))),
{
    assert forall|ci: int| 0 <= ci < endc.len() implies ((#[trigger] endc[ci])
        matches FrameCmd::Draw { pass: pp, target: tg, .. } ==> (((pp as nat) + 1 < k.active
        && k.plans[pp as int].mipmap) ==> ci + 1 < endc.len() && endc[ci + 1]
        == (FrameCmd::GenerateMipmaps { image: tg }))) by {
        if ci < dpos - 1 {
            assert(endc[ci] == pre_rt[ci]);
            if endc[ci] is Draw {
                if (endc[ci]->Draw_pass as nat) + 1 < k.active && k.plans[endc[ci]->Draw_pass as int].mipmap {
                    assert(ci + 1 < pre_rt.len());
                    assert(pre_rt[ci + 1] == endc[ci + 1]);
                }
            }
        } else if ci == dpos - 1 {
            assert(!(endc[ci] is Draw));
        } else if ci == dpos {
            assert(endc[ci] == dghost);
        }
    }
}

proof fn lemma_tail_texture_transitions(
    pre_rt: Seq<FrameCmd>,
    endc: Seq<FrameCmd>,
    k: FrameCtx,
    dghost: FrameCmd,
    bts_snap: Seq<BoundTexture>,
    dpos: int,
)
    requires
        spec_draws_structured(pre_rt, k),
        dpos == pre_rt.len() + 1,
        dpos < endc.len() <= dpos + 3,
        forall|ci: int| 0 <= ci < pre_rt.len() ==> #[trigger] endc[ci] == pre_rt[ci],
        !(endc[dpos - 1] is Draw),
        endc[dpos] == dghost,
        dghost is Draw,
        dghost->Draw_textures@ == bts_snap,
        forall|ci: int| dpos < ci < endc.len() ==> !((#[trigger] endc[ci]) is Draw),
        forall|t: int|
            0 <= t < bts_snap.len() ==> spec_stream_contains(
                pre_rt,
                FrameCmd::Transition {
                    image: (#[trigger] bts_snap[t]).image,
                    state: ResourceState::ShaderRead,
                },
            ),
    ensures
        forall|ci: int|
            0 <= ci < endc.len() ==> ((#[trigger] endc[ci]) matches FrameCmd::Draw {
                textures: tx,
                ..
            } ==> forall|t: int|
                0 <= t < tx@.len() ==> exists|cj: int|
                    0 <= cj < ci && endc[cj] == (FrameCmd::Transition {
                        image: (#[trigger] tx@[t]).image,
                        state: ResourceState::ShaderRead,
                    })),
{
    assert forall|ci: int| 0 <= ci < endc.len() implies ((#[trigger] endc[ci])
        matches FrameCmd::Draw { textures: tx, .. } ==> forall|t: int|
        0 <= t < tx@.len() ==> exists|cj: int|
            0 <= cj < ci && endc[cj] == (FrameCmd::Transition {
                image: (#[trigger] tx@[t]).image,
                state: ResourceState::ShaderRead,
            })) by {
        if ci < dpos - 1 {
            assert(endc[ci] == pre_rt[ci]);
            match pre_rt[ci] {
                FrameCmd::Draw { textures: tx, .. } => {
                    assert forall|t: int| 0 <= t < tx@.len() implies exists|cj: int|
                        0 <= cj < ci && endc[cj] == (FrameCmd::Transition {
                            image: (#[trigger] tx@[t]).image,
                            state: ResourceState::ShaderRead,
                        }) by {
                        let cj = choose|cj: int|
                            0 <= cj < ci && pre_rt[cj] == (FrameCmd::Transition {
                                image: tx@[t].image,
                                state: ResourceState::ShaderRead,
                            });
                        assert(endc[cj] == pre_rt[cj]);
                    }
                },
                _ => {
                },
            }
        } else if ci == dpos - 1 {
            assert(!(endc[ci] is Draw));
        } else if ci == dpos {
            assert(endc[ci] == dghost);
            assert forall|t: int| 0 <= t < bts_snap.len() implies exists|cj: int|
                0 <= cj < ci && endc[cj] == (FrameCmd::Transition {
                    image: (#[trigger] bts_snap[t]).image,
                    state: ResourceState::ShaderRead,
                }) by {
                let cj = choose|cj: int|
                    0 <= cj < pre_rt.len() && pre_rt[cj] == (FrameCmd::Transition {
                        image: bts_snap[t].image,
                        state: ResourceState::ShaderRead,
                    });
                assert(endc[cj] == pre_rt[cj]);
            }
        }
    }
}

/// After one pass's commands are appended - the target transition, the
/// draw, mip regeneration when the pass keeps a chain and is not final,
/// and an optional trailing transition - the whole stream keeps the
/// per-pass shape.
proof fn lemma_pass_tail_structured(
    pre_rt: Seq<FrameCmd>,
    endc: Seq<FrameCmd>,
    k: FrameCtx,
    dghost: FrameCmd,
    target: ImageRef,
    bts_snap: Seq<BoundTexture>,
    dpos: int,
    mip: bool,
    last: bool,
    d: int,
)
    requires
        spec_draws_structured(pre_rt, k),
        dpos == pre_rt.len() + 1,
        dpos < endc.len() <= dpos + 3,
        forall|ci: int| 0 <= ci < pre_rt.len() ==> #[trigger] endc[ci] == pre_rt[ci],
        endc[dpos - 1] == (FrameCmd::Transition {
            image: target,
            state: ResourceState::RenderTarget,
        }),
        endc[dpos] == dghost,
        dghost is Draw,
        dghost->Draw_pass == d as u32,
        dghost->Draw_target == target,
        dghost->Draw_textures@ == bts_snap,
        0 <= d < k.plans.len(),
        d <= u32::MAX,
        ((d as nat) + 1 < k.active) <==> !last,
        mip == k.plans[d].mipmap,
        mip && !last ==> dpos + 1 < endc.len() && endc[dpos + 1] == (FrameCmd::GenerateMipmaps {
            image: target,
        }),
        forall|ci: int| dpos < ci < endc.len() ==> !((#[trigger] endc[ci]) is Draw),
        forall|t: int|
            0 <= t < bts_snap.len() ==> spec_stream_contains(
                pre_rt,
                FrameCmd::Transition {
                    image: (#[trigger] bts_snap[t]).image,
                    state: ResourceState::ShaderRead,
                },
            ),
    ensures
        spec_draws_structured(endc, k),
{
    lemma_tail_target_transition(pre_rt, endc, k, dghost, target, dpos);
    lemma_tail_mip_follows(pre_rt, endc, k, dghost, target, dpos, mip, last, d);
    lemma_tail_texture_transitions(pre_rt, endc, k, dghost, bts_snap, dpos);
}

/// Record one command, carrying the stream's draw facts along.
fn push_cmd(cmds: &mut Vec<FrameCmd>, c: FrameCmd, Ghost(fctx): Ghost<FrameCtx>)
    requires
        spec_draw_ok(c, fctx),
        spec_cmds_ok(old(cmds)@, fctx),
    ensures
        final(cmds)@ == old(cmds)@.push(c),
        final(cmds)@.len() == old(cmds)@.len() + 1,
        final(cmds)@.last() == c,
        forall|ci: int| 0 <= ci < old(cmds)@.len() ==> final(cmds)@[ci] == old(cmds)@[ci],
        forall|x: FrameCmd|
            spec_stream_contains(old(cmds)@, x) ==> spec_stream_contains(final(cmds)@, x),
        spec_cmds_ok(final(cmds)@, fctx),
        spec_draw_passes(final(cmds)@) == spec_draw_passes(old(cmds)@) + (match c {
            FrameCmd::Draw { pass, .. } => seq![pass],
            _ => Seq::<u32>::empty(),
        }),
        (!(c is Draw) && spec_draws_structured(old(cmds)@, fctx)) ==> spec_draws_structured(
            final(cmds)@,
            fctx,
        ),
{
    let ghost prev = cmds@;
    cmds.push(c);
    proof {
        assert(cmds@.drop_last() =~= prev);
        assert forall|i: int| 0 <= i < cmds@.len() implies spec_draw_ok(
            #[trigger] cmds@[i],
            fctx,
        ) by {
            if i < prev.len() {
                assert(cmds@[i] == prev[i]);
            }
        }
        assert forall|x: FrameCmd|
            spec_stream_contains(prev, x) implies spec_stream_contains(cmds@, x) by {
            lemma_contains_push(prev, x, c);
        }
        if !(c is Draw) && spec_draws_structured(prev, fctx) {
            lemma_structured_push(prev, c, fctx);
        }
        assert(spec_draw_passes(cmds@) =~= spec_draw_passes(prev) + (match cmds@.last() {
            FrameCmd::Draw { pass, .. } => seq![pass],
            _ => Seq::<u32>::empty(),
        }));
    }
}

/// A stream with no draw commands lists no draw passes.
proof fn lemma_draw_passes_empty(cmds: Seq<FrameCmd>)
    requires
        forall|i: int| 0 <= i < cmds.len() ==> !((#[trigger] cmds[i]) is Draw),
    ensures
        spec_draw_passes(cmds) == Seq::<u32>::empty(),
    decreases cmds.len(),
{
    if cmds.len() > 0 {
        lemma_draw_passes_empty(cmds.drop_last());
        assert(spec_draw_passes(cmds) =~= Seq::<u32>::empty());
    }
}

impl FilterChain {
    /// Record one frame: snapshot the parameters and enabled-pass count,
    /// resize the pooled targets lazily, swap feedback sources, zero-clear
    /// the rings when asked, rotate the history ring onto this frame's
    /// input, and record one draw per enabled pass in pass order. With no
    /// enabled pass the frame is a single scaled blit of the input onto the
    /// output. An empty viewport or input is rejected with
    /// `InvalidParameter` before anything changes; a failed target
    /// allocation aborts with `AllocationFailed` before any rotation or
    /// swap, leaving every surviving ring slot's provenance intact.
    #[verifier::rlimit(100)]
    pub fn frame(
        &mut self,
        input: ImageRef,
        viewport: &Viewport,
        output: ImageRef,
        frame_index: u64,
        mvp: Option<&Vec<u32>>,
        options: Option<FrameOptions>,
    ) -> (r: Result<Vec<FrameCmd>, FilterChainError>)
        requires
            old(self).wf(),
            match mvp {
                Option::Some(m) => m@.len() == 16,
                Option::None => true,
            },
        ensures
            final(self).wf(),
            final(self).plans() == old(self).plans(),
            final(self).lut_plans_view() == old(self).lut_plans_view(),
            final(self).param_state() == old(self).param_state(),
            final(self).history_depth() == old(self).history_depth(),
            final(self).sampler_handles() == old(self).sampler_handles(),
            final(self).history_images().len() == old(self).history_images().len(),
            final(self).output_images().len() == old(self).output_images().len(),
            final(self).feedback_images().len() == old(self).feedback_images().len(),
            (r == Err::<Vec<FrameCmd>, FilterChainError>(FilterChainError::InvalidParameter))
                <==> (viewport.width == 0 || viewport.height == 0 || input.size.width == 0
                || input.size.height == 0),
            (!(viewport.width == 0 || viewport.height == 0 || input.size.width == 0
                || input.size.height == 0) && old(self).alloc_state().next + 2 * old(self).pass_count() + old(self).history_images().len() <= u64::MAX) ==> r is Ok,
            (!(viewport.width == 0 || viewport.height == 0 || input.size.width == 0
                || input.size.height == 0) && old(self).param_state().enabled_passes() == 0)
                ==> r is Ok,
            final(self).alloc_state().next <= old(self).alloc_state().next + 2 * old(self).pass_count()
                + old(self).history_images().len(),
            match r {
                Err(e) => {
                    &&& (e == FilterChainError::InvalidParameter || e
                        == FilterChainError::AllocationFailed)
                    &&& (e == FilterChainError::InvalidParameter ==> *final(self) == *old(self))
                    &&& forall|j: int|
                        0 <= j < final(self).history_tags().len()
                            ==> #[trigger] final(self).history_tags()[j] == old(self).history_tags()[j] || final(self).history_tags()[j] == -1
                    &&& forall|j: int|
                        0 <= j < final(self).output_tags().len() ==> #[trigger] final(self).output_tags()[j] == old(self).output_tags()[j] || final(self).output_tags()[j] == -1
                    &&& forall|j: int|
                        0 <= j < final(self).feedback_tags().len() ==> #[trigger] final(self).feedback_tags()[j] == old(self).feedback_tags()[j] || final(self).feedback_tags()[j] == -1
                },
                Ok(cmds) => {
                    let active = old(self).param_state().enabled_passes();
                    let vs = spec_vp_size(*viewport);
                    let opts = spec_frame_opts(options);
                    let ctx = spec_frame_ctx(
                        *final(self),
                        input,
                        output,
                        *viewport,
                        frame_index,
                        crate::options::spec_normalized_direction(opts.frame_direction),
                        spec_mvp_words(
                            match mvp {
                                Option::Some(m) => Option::Some(m@),
                                Option::None => Option::None,
                            },
                        ),
                        old(self).param_state().values_view(),
                        active,
                    );
                    &&& (active == 0 ==> *final(self) == *old(self) && cmds@ == seq![
                        FrameCmd::Blit { src: input, dst: output, out_size: vs },
                    ])
                    &&& (active > 0 ==> {
                        &&& spec_cmds_ok(cmds@, ctx)
                        &&& spec_draw_passes(cmds@) == Seq::new(active, |t: int| t as u32)
                        &&& forall|i: int|
                            0 <= i && i + 1 < active ==> {
                                let img = #[trigger] final(self).output_images()[i];
                                &&& img.size == spec_pass_output_size(
                                    old(self).plans(),
                                    input.size,
                                    vs,
                                    i as nat,
                                )
                                &&& img.format == old(self).plans()[i].config.format
                                &&& img.mipped() == (old(self).plans()[i].mipmap
                                    && spec_miplevels(img.size) > 1)
                            }
                        &&& forall|i: int|
                            active - 1 <= i < final(self).output_images().len()
                                ==> #[trigger] final(self).output_images()[i] == old(self).output_images()[i]
                        &&& (final(self).history_images().len() > 0 ==> {
                            &&& (forall|j: int|
                                0 <= j < final(self).history_images().len() ==> {
                                    let img = #[trigger] final(self).history_images()[j];
                                    &&& img.size == input.size
                                    &&& img.format == input.format
                                    &&& !img.mipped()
                                })
                            &&& final(self).history_tags()[0] == frame_index
                            &&& forall|j: int|
                                1 <= j < final(self).history_tags().len()
                                    ==> #[trigger] final(self).history_tags()[j] == (
                                if opts.clear_history {
                                    -1int
                                } else if old(self).history_images()[j - 1].matches(
                                    input.size,
                                    input.format,
                                    false,
                                ) {
                                    old(self).history_tags()[j - 1]
                                } else {
                                    -1int
                                })
                        })
                        &&& forall|i: int|
                            0 <= i < final(self).output_tags().len() ==> #[trigger] final(self).output_tags()[i] == (if i + 1 < active {
                                frame_index as int
                            } else {
                                old(self).output_tags()[i]
                            })
                        &&& forall|i: int|
                            0 <= i < final(self).feedback_tags().len()
                                ==> #[trigger] final(self).feedback_tags()[i] == (if i + 1 < active
                                && old(self).plans()[i].feedback {
                                if old(self).output_images()[i].matches(
                                    spec_pass_output_size(old(self).plans(), input.size, vs, i as nat),
                                    old(self).plans()[i].config.format,
                                    old(self).plans()[i].mipmap,
                                ) && !opts.clear_history {
                                    old(self).output_tags()[i]
                                } else {
                                    -1int
                                }
                            } else if opts.clear_history && old(self).plans()[i].feedback {
                                -1int
                            } else {
                                old(self).feedback_tags()[i]
                            })
                        &&& forall|i: int|
                            0 <= i && i + 1 < active && old(self).plans()[i].feedback ==> (
                            #[trigger] final(self).feedback_images()[i]) is Some && final(self).feedback_images()[i]->0.size == spec_pass_output_size(
                                old(self).plans(),
                                input.size,
                                vs,
                                i as nat,
                            )
                    })
                },
            },
    {
        // Step 1: validation and the frame's snapshot.
        if viewport.width == 0 || viewport.height == 0 || input.size.width == 0
            || input.size.height == 0 {
            return Err(FilterChainError::InvalidParameter);
        }
        let opts = match options {
            Some(o) => o,
            None => FrameOptions { clear_history: false, frame_direction: 1 },
        };
        let snapshot = self.params.snapshot();
        let active = self.params.get_enabled_pass_count();
        let n = self.passes.len();
        let vp_size = Size { width: viewport.width, height: viewport.height };
        if active == 0 {
            let mut cmds: Vec<FrameCmd> = Vec::new();
            cmds.push(FrameCmd::Blit { src: input, dst: output, out_size: vp_size });
            proof {
                assert(cmds@ =~= seq![
                    FrameCmd::Blit {
                        src: input,
                        dst: output,
                        out_size: spec_vp_size(*viewport),
                    },
                ]);
            }
            return Ok(cmds);
        }
        proof {
            self.params.lemma_wf_bounds();
            assert(active <= n);
        }

        let ghost plans0 = self.passes@;

        // Resize each intermediate target to its pass's computed size, and
        // each feedback source alongside its pass's target. All fallible
        // work happens here, before any rotation or swap.
        let mut out_sizes: Vec<Size> = Vec::new();
        let mut src_size = input.size;
        let mut i: usize = 0;
        while i + 1 < active
            invariant
                old(self).wf(),
                self.wf(),
                i + 1 <= active,
                active <= n,
                active == old(self).param_state().enabled_passes(),
                n == old(self).pass_count(),
                self.passes@ == plans0,
                plans0 == old(self).plans(),
                self.history@ == old(self).history_images(),
                self.feedback_back@ == old(self).feedback_images(),
                self.luts@ == old(self).lut_plans_view(),
                self.params == old(self).param_state(),
                self.samplers == old(self).sampler_state(),
                self.required_history == old(self).history_depth(),
                self.history_src@ == old(self).history_tags(),
                self.feedback_src@ == old(self).feedback_tags(),
                self.outputs@.len() == n,
                self.outputs_src@.len() == n,
                self.alloc.next <= old(self).alloc_state().next + i,
                out_sizes@.len() == i,
                vp_size == spec_vp_size(*viewport),
                viewport.width >= 1,
                viewport.height >= 1,
                input.size.width >= 1,
                input.size.height >= 1,
                src_size == spec_pass_source_size(plans0, input.size, vp_size, i as nat),
                forall|j: int| 0 <= j < n ==> (#[trigger] self.outputs@[j]).wf(),
                forall|j: int|
                    i <= j < n ==> #[trigger] self.outputs@[j] == old(self).output_images()[j],
                forall|j: int|
                    0 <= j < i ==> #[trigger] out_sizes@[j] == spec_pass_output_size(
                        plans0,
                        input.size,
                        vp_size,
                        j as nat,
                    ),
                forall|j: int|
                    0 <= j < i ==> {
                        let img = #[trigger] self.outputs@[j];
                        &&& img.size == spec_pass_output_size(plans0, input.size, vp_size, j as nat)
                        &&& img.format == plans0[j].config.format
                        &&& img.mipped() == (plans0[j].mipmap && spec_miplevels(img.size) > 1)
                    },
                forall|j: int|
                    0 <= j < n ==> #[trigger] self.outputs_src@[j] == (if j < i {
                        if old(self).output_images()[j].matches(
                            spec_pass_output_size(plans0, input.size, vp_size, j as nat),
                            plans0[j].config.format,
                            plans0[j].mipmap,
                        ) {
                            old(self).output_tags()[j]
                        } else {
                            -1int
                        }
                    } else {
                        old(self).output_tags()[j]
                    }),
            decreases active - i,
        {
            let scaling = self.passes[i].config.scaling;
            let fmt = self.passes[i].config.format;
            let mip = self.passes[i].mipmap;
            proof {
                assert(spec_plan_bounded(
                    plans0[i as int],
                    i as nat,
                    n as nat,
                    old(self).lut_plans_view().len(),
                    old(self).history_depth(),
                    old(self).param_state().values_view().len(),
                ));
            }
            let sz = crate::scaling::scale_size(scaling, src_size, vp_size);
            let mut img = self.outputs[i];
            let kept = img.matches_exec(sz, fmt, mip);
            match img.ensure_exact(&mut self.alloc, sz, fmt, mip) {
                Ok(u) => {
                    self.outputs[i] = img;
                    if !kept {
                        self.outputs_src = Ghost(self.outputs_src@.update(i as int, -1int));
                    }
                },
                Err(e) => {
                    proof {
                        if !(viewport.width == 0 || viewport.height == 0 || input.size.width == 0
                            || input.size.height == 0) && old(self).alloc_state().next + 2 * old(self).pass_count()
                            + old(self).history_images().len() <= u64::MAX {
                            assert(false);
                        }
                    }
                    return Err(e);
                },
            }
            out_sizes.push(sz);
            src_size = sz;
            i = i + 1;
        }

        // Resize the feedback source of each pass that will draw to an
        // intermediate target, to that target's descriptor.
        let mut fi: usize = 0;
        while fi + 1 < active
            invariant
                old(self).wf(),
                self.wf(),
                fi + 1 <= active,
                active <= n,
                active == old(self).param_state().enabled_passes(),
                n == old(self).pass_count(),
                vp_size == spec_vp_size(*viewport),
                viewport.width >= 1,
                viewport.height >= 1,
                input.size.width >= 1,
                input.size.height >= 1,
                forall|j: int|
                    0 <= j && j + 1 < active ==> {
                        let img = #[trigger] self.outputs@[j];
                        &&& img.size == spec_pass_output_size(plans0, input.size, vp_size, j as nat)
                        &&& img.format == plans0[j].config.format
                        &&& img.mipped() == (plans0[j].mipmap && spec_miplevels(img.size) > 1)
                    },
                forall|j: int|
                    active - 1 <= j < n ==> #[trigger] self.outputs@[j] == old(self).output_images()[j],
                forall|j: int|
                    0 <= j < n ==> #[trigger] self.outputs_src@[j] == (if j + 1 < active {
                        if old(self).output_images()[j].matches(
                            spec_pass_output_size(plans0, input.size, vp_size, j as nat),
                            plans0[j].config.format,
                            plans0[j].mipmap,
                        ) {
                            old(self).output_tags()[j]
                        } else {
                            -1int
                        }
                    } else {
                        old(self).output_tags()[j]
                    }),
                self.passes@ == plans0,
                plans0 == old(self).plans(),
                self.history@ == old(self).history_images(),
                self.luts@ == old(self).lut_plans_view(),
                self.params == old(self).param_state(),
                self.samplers == old(self).sampler_state(),
                self.required_history == old(self).history_depth(),
                self.history_src@ == old(self).history_tags(),
                self.feedback_src@ == old(self).feedback_tags(),
                self.outputs@.len() == n,
                self.outputs_src@.len() == n,
                self.feedback_back@.len() == n,
                self.alloc.next <= old(self).alloc_state().next + (active - 1) + fi,
                out_sizes@.len() + 1 == active,
                forall|j: int|
                    0 <= j && j + 1 < active ==> #[trigger] out_sizes@[j] == spec_pass_output_size(
                        plans0,
                        input.size,
                        vp_size,
                        j as nat,
                    ),
                forall|j: int|
                    0 <= j < n ==> ((#[trigger] self.feedback_back@[j]) is Some <==> plans0[j].feedback),
                forall|j: int|
                    0 <= j < n && (#[trigger] self.feedback_back@[j]) is Some
                        ==> self.feedback_back@[j]->0.wf(),
                forall|j: int|
                    fi <= j < n ==> #[trigger] self.feedback_back@[j] == old(self).feedback_images()[j],
                forall|j: int|
                    0 <= j < fi && j + 1 < active && plans0[j].feedback ==> (
                    #[trigger] self.feedback_back@[j]) is Some && self.feedback_back@[j]->0.size
                        == out_sizes@[j] && self.feedback_back@[j]->0.format
                        == plans0[j].config.format && self.feedback_back@[j]->0.mipped() == (
                    plans0[j].mipmap && spec_miplevels(out_sizes@[j]) > 1),
            decreases active - fi,
        {
            if self.passes[fi].feedback {
                let fmt = self.passes[fi].config.format;
                let mip = self.passes[fi].mipmap;
                let sz = out_sizes[fi];
                proof {
                    assert(sz.width >= 1 && sz.height >= 1);
                }
                match self.feedback_back[fi] {
                    Some(b) => {
                        let mut img = b;
                        match img.ensure_exact(&mut self.alloc, sz, fmt, mip) {
                            Ok(u) => {
                                self.feedback_back[fi] = Some(img);
                            },
                            Err(e) => {
                            proof {
                                if !(viewport.width == 0 || viewport.height == 0 || input.size.width == 0
                                    || input.size.height == 0) && old(self).alloc_state().next + 2 * old(self).pass_count()
                                    + old(self).history_images().len() <= u64::MAX {
                                    assert(false);
                                }
                            }
                                return Err(e);
                            },
                        }
                    },
                    None => {
                        proof {
                            assert(false);
                        }
                    },
                }
            }
            fi = fi + 1;
        }

        // Resize every history slot to the input's descriptor; a re-created
        // slot's provenance is unknown.
        let hl = self.history.len();
        let mut hj: usize = 0;
        while hj < hl
            invariant
                old(self).wf(),
                self.wf(),
                hj <= hl,
                hl == old(self).history_images().len(),
                self.history@.len() == hl,
                self.history_src@.len() == hl,
                self.passes@ == plans0,
                plans0 == old(self).plans(),
                active <= n,
                active == old(self).param_state().enabled_passes(),
                n == old(self).pass_count(),
                vp_size == spec_vp_size(*viewport),
                viewport.width >= 1,
                viewport.height >= 1,
                input.size.width >= 1,
                input.size.height >= 1,
                self.feedback_back@.len() == n,
                self.luts@ == old(self).lut_plans_view(),
                self.params == old(self).param_state(),
                self.samplers == old(self).sampler_state(),
                self.required_history == old(self).history_depth(),
                self.feedback_src@ == old(self).feedback_tags(),
                self.outputs@.len() == n,
                self.outputs_src@.len() == n,
                self.alloc.next <= old(self).alloc_state().next + 2 * (active - 1) + hj,
                out_sizes@.len() + 1 == active,
                forall|j: int|
                    0 <= j && j + 1 < active ==> #[trigger] out_sizes@[j] == spec_pass_output_size(
                        plans0,
                        input.size,
                        vp_size,
                        j as nat,
                    ),
                forall|j: int|
                    0 <= j && j + 1 < active ==> {
                        let img = #[trigger] self.outputs@[j];
                        &&& img.size == spec_pass_output_size(plans0, input.size, vp_size, j as nat)
                        &&& img.format == plans0[j].config.format
                        &&& img.mipped() == (plans0[j].mipmap && spec_miplevels(img.size) > 1)
                    },
                forall|j: int|
                    active - 1 <= j < n ==> #[trigger] self.outputs@[j] == old(self).output_images()[j],
                forall|j: int|
                    0 <= j < n ==> #[trigger] self.outputs_src@[j] == (if j + 1 < active {
                        if old(self).output_images()[j].matches(
                            spec_pass_output_size(plans0, input.size, vp_size, j as nat),
                            plans0[j].config.format,
                            plans0[j].mipmap,
                        ) {
                            old(self).output_tags()[j]
                        } else {
                            -1int
                        }
                    } else {
                        old(self).output_tags()[j]
                    }),
                forall|j: int|
                    0 <= j < n && j + 1 >= active ==> #[trigger] self.feedback_back@[j] == old(self).feedback_images()[j],
                forall|j: int|
                    0 <= j && j + 1 < active && plans0[j].feedback ==> (
                    #[trigger] self.feedback_back@[j]) is Some && self.feedback_back@[j]->0.size
                        == out_sizes@[j] && self.feedback_back@[j]->0.format
                        == plans0[j].config.format && self.feedback_back@[j]->0.mipped() == (
                    plans0[j].mipmap && spec_miplevels(out_sizes@[j]) > 1),
                forall|j: int|
                    0 <= j && j + 1 < active && !plans0[j].feedback
                        ==> #[trigger] self.feedback_back@[j] == old(self).feedback_images()[j],
                forall|j: int| 0 <= j < hl ==> (#[trigger] self.history@[j]).wf(),
                forall|j: int|
                    hj <= j < hl ==> #[trigger] self.history@[j] == old(self).history_images()[j],
                forall|j: int|
                    0 <= j < hj ==> {
                        let img = #[trigger] self.history@[j];
                        &&& img.size == input.size
                        &&& img.format == input.format
                        &&& !img.mipped()
                    },
                forall|j: int|
                    0 <= j < hl ==> #[trigger] self.history_src@[j] == (if j < hj {
                        if old(self).history_images()[j].matches(input.size, input.format, false) {
                            old(self).history_tags()[j]
                        } else {
                            -1int
                        }
                    } else {
                        old(self).history_tags()[j]
                    }),
            decreases hl - hj,
        {
            let mut img = self.history[hj];
            let kept = img.matches_exec(input.size, input.format, false);
            match img.ensure_exact(&mut self.alloc, input.size, input.format, false) {
                Ok(u) => {
                    self.history[hj] = img;
                    if !kept {
                        self.history_src = Ghost(self.history_src@.update(hj as int, -1int));
                    }
                },
                Err(e) => {
                    proof {
                        if !(viewport.width == 0 || viewport.height == 0 || input.size.width == 0
                            || input.size.height == 0) && old(self).alloc_state().next + 2 * old(self).pass_count()
                            + old(self).history_images().len() <= u64::MAX {
                            assert(false);
                        }
                    }
                    return Err(e);
                },
            }
            hj = hj + 1;
        }

        // Feedback swap: each intermediate feedback pass exchanges its
        // target with its source, so the source now holds what the pass
        // drew last frame and the pass draws into what may be overwritten.
        let ghost pre_out = self.outputs@;
        let ghost pre_out_tags = self.outputs_src@;
        let ghost pre_fb = self.feedback_back@;
        let ghost pre_fb_tags = self.feedback_src@;
        let ghost pre_hist = self.history@;
        let ghost pre_hist_tags = self.history_src@;
        let ghost pre_alloc = self.alloc;
        let mut sw: usize = 0;
        while sw + 1 < active
            invariant
                old(self).wf(),
                self.wf(),
                sw + 1 <= active,
                active <= n,
                n == old(self).pass_count(),
                self.passes@ == plans0,
                plans0 == old(self).plans(),
                self.history@.len() == old(self).history_images().len(),
                self.luts@ == old(self).lut_plans_view(),
                self.params == old(self).param_state(),
                self.samplers == old(self).sampler_state(),
                self.required_history == old(self).history_depth(),
                self.history@ == pre_hist,
                self.history_src@ == pre_hist_tags,
                self.alloc == pre_alloc,
                self.outputs@.len() == n,
                self.outputs_src@.len() == n,
                self.feedback_back@.len() == n,
                self.feedback_src@.len() == n,
                forall|j: int| sw <= j < n ==> #[trigger] self.outputs@[j] == pre_out[j],
                forall|j: int| sw <= j < n ==> #[trigger] self.outputs_src@[j] == pre_out_tags[j],
                forall|j: int| sw <= j < n ==> #[trigger] self.feedback_back@[j] == pre_fb[j],
                forall|j: int| sw <= j < n ==> #[trigger] self.feedback_src@[j] == pre_fb_tags[j],
                forall|j: int|
                    0 <= j < sw ==> (if j + 1 < active && plans0[j].feedback {
                        &&& #[trigger] self.outputs@[j] == pre_fb[j]->0
                        &&& self.feedback_back@[j] == Option::Some(pre_out[j])
                        &&& self.outputs_src@[j] == pre_fb_tags[j]
                        &&& self.feedback_src@[j] == pre_out_tags[j]
                    } else {
                        &&& #[trigger] self.outputs@[j] == pre_out[j]
                        &&& self.outputs_src@[j] == pre_out_tags[j]
                        &&& self.feedback_back@[j] == pre_fb[j]
                        &&& self.feedback_src@[j] == pre_fb_tags[j]
                    }),
                forall|j: int|
                    0 <= j && j + 1 < active ==> {
                        let img = #[trigger] self.outputs@[j];
                        &&& img.size == spec_pass_output_size(plans0, input.size, vp_size, j as nat)
                        &&& img.format == plans0[j].config.format
                        &&& img.mipped() == (plans0[j].mipmap && spec_miplevels(img.size) > 1)
                    },
                forall|j: int|
                    0 <= j && j + 1 < active && plans0[j].feedback ==> {
                        let b = (#[trigger] self.feedback_back@[j]);
                        &&& b is Some
                        &&& b->0.size == spec_pass_output_size(plans0, input.size, vp_size, j as nat)
                        &&& b->0.format == plans0[j].config.format
                        &&& b->0.mipped() == (plans0[j].mipmap && spec_miplevels(b->0.size) > 1)
                    },
            decreases active - sw,
        {
            if self.passes[sw].feedback {
                match self.feedback_back[sw] {
                    Some(b) => {
                        let o = self.outputs[sw];
                        self.outputs[sw] = b;
                        self.feedback_back[sw] = Some(o);
                        let ghost ot = self.outputs_src@[sw as int];
                        self.outputs_src = Ghost(
                            self.outputs_src@.update(sw as int, self.feedback_src@[sw as int]),
                        );
                        self.feedback_src = Ghost(self.feedback_src@.update(sw as int, ot));
                        proof {
                            assert(self.outputs@[sw as int] == pre_fb[sw as int]->0);
                            assert(self.feedback_back@[sw as int] == Option::Some(
                                pre_out[sw as int],
                            ));
                            assert(self.outputs_src@[sw as int] == pre_fb_tags[sw as int]);
                            assert(self.feedback_src@[sw as int] == pre_out_tags[sw as int]);
                        }
                    },
                    None => {
                        proof {
                            assert(false);
                        }
                    },
                }
            }
            sw = sw + 1;
        }

        let mut cmds: Vec<FrameCmd> = Vec::new();

        // Zero-clear the rings on request, before the ring rotates.
        if opts.clear_history {
            let ghost chain_snap = *self;
            let mut cj: usize = 0;
            while cj < self.history.len()
                invariant
                    *self == chain_snap,
                    cj <= self.history@.len(),
                    forall|ci: int| 0 <= ci < cmds@.len() ==> !((#[trigger] cmds@[ci]) is Draw),
                    forall|j: int|
                        0 <= j < cj ==> spec_stream_contains(
                            cmds@,
                            FrameCmd::Clear { image: spec_image_ref(#[trigger] self.history@[j]) },
                        ),
                decreases self.history@.len() - cj,
            {
                let img = image_ref(&self.history[cj]);
                let ghost prev = cmds@;
                cmds.push(FrameCmd::Clear { image: img });
                proof {
                    assert forall|j: int| 0 <= j < cj implies spec_stream_contains(
                        cmds@,
                        FrameCmd::Clear { image: spec_image_ref(#[trigger] self.history@[j]) },
                    ) by {
                        lemma_contains_push(
                            prev,
                            FrameCmd::Clear { image: spec_image_ref(self.history@[j]) },
                            FrameCmd::Clear { image: img },
                        );
                    }
                    assert(cmds@[cmds@.len() - 1] == (FrameCmd::Clear {
                        image: spec_image_ref(self.history@[cj as int]),
                    }));
                }
                cj = cj + 1;
            }
            let mut ck: usize = 0;
            while ck < n
                invariant
                    *self == chain_snap,
                    n == self.feedback_back@.len(),
                    ck <= n,
                    forall|ci: int| 0 <= ci < cmds@.len() ==> !((#[trigger] cmds@[ci]) is Draw),
                    forall|j: int|
                        0 <= j < self.history@.len() ==> spec_stream_contains(
                            cmds@,
                            FrameCmd::Clear { image: spec_image_ref(#[trigger] self.history@[j]) },
                        ),
                    forall|i: int|
                        0 <= i < ck && (#[trigger] self.feedback_back@[i]) is Some
                            ==> spec_stream_contains(
                            cmds@,
                            FrameCmd::Clear {
                                image: spec_image_ref(self.feedback_back@[i]->0),
                            },
                        ),
                decreases n - ck,
            {
                match &self.feedback_back[ck] {
                    Some(b) => {
                        let img = image_ref(b);
                        let ghost prev = cmds@;
                        cmds.push(FrameCmd::Clear { image: img });
                        proof {
                            assert forall|j: int|
                                0 <= j < self.history@.len() implies spec_stream_contains(
                                cmds@,
                                FrameCmd::Clear {
                                    image: spec_image_ref(#[trigger] self.history@[j]),
                                },
                            ) by {
                                lemma_contains_push(
                                    prev,
                                    FrameCmd::Clear { image: spec_image_ref(self.history@[j]) },
                                    FrameCmd::Clear { image: img },
                                );
                            }
                            assert forall|i: int|
                                0 <= i < ck && (#[trigger] self.feedback_back@[i])
                                    is Some implies spec_stream_contains(
                                cmds@,
                                FrameCmd::Clear {
                                    image: spec_image_ref(self.feedback_back@[i]->0),
                                },
                            ) by {
                                lemma_contains_push(
                                    prev,
                                    FrameCmd::Clear {
                                        image: spec_image_ref(self.feedback_back@[i]->0),
                                    },
                                    FrameCmd::Clear { image: img },
                                );
                            }
                            assert(cmds@[cmds@.len() - 1] == (FrameCmd::Clear {
                                image: spec_image_ref(self.feedback_back@[ck as int]->0),
                            }));
                        }
                    },
                    None => {
                    },
                }
                ck = ck + 1;
            }
            self.history_src = Ghost(Seq::new(self.history_src@.len(), |j: int| -1int));
            let ghost fbt = self.feedback_src@;
            let ghost fbb = self.feedback_back@;
            self.feedback_src = Ghost(
                Seq::new(
                    fbt.len(),
                    |j: int|
                        if fbb[j] is Some {
                            -1int
                        } else {
                            fbt[j]
                        },
                ),
            );
        }

        // Rotate the ring: the oldest slot becomes the newest and receives
        // a copy of this frame's input.
        if self.history.len() > 0 {
            let ghost pre_rot_hist = self.history@;
            let last_idx = self.history.len() - 1;
            let img = self.history.remove(last_idx);
            self.history.insert(0, img);
            let front = image_ref(&self.history[0]);
            let ghost pre_copy = cmds@;
            cmds.push(FrameCmd::CopyImage { src: input, dst: front });
            proof {
                assert(cmds@[cmds@.len() - 1] == (FrameCmd::CopyImage {
                    src: input,
                    dst: spec_image_ref(self.history@[0]),
                }));
                assert(spec_stream_contains(
                    cmds@,
                    FrameCmd::CopyImage { src: input, dst: spec_image_ref(self.history@[0]) },
                ));
                if opts.clear_history {
                    assert forall|j: int|
                        0 <= j < pre_rot_hist.len() implies spec_stream_contains(
                        cmds@,
                        FrameCmd::Clear { image: spec_image_ref(#[trigger] pre_rot_hist[j]) },
                    ) by {
                        lemma_contains_push(
                            pre_copy,
                            FrameCmd::Clear { image: spec_image_ref(pre_rot_hist[j]) },
                            FrameCmd::CopyImage { src: input, dst: front },
                        );
                    }
                    assert forall|i: int|
                        0 <= i < self.feedback_back@.len() && (#[trigger] self.feedback_back@[i])
                            is Some implies spec_stream_contains(
                        cmds@,
                        FrameCmd::Clear { image: spec_image_ref(self.feedback_back@[i]->0) },
                    ) by {
                        lemma_contains_push(
                            pre_copy,
                            FrameCmd::Clear { image: spec_image_ref(self.feedback_back@[i]->0) },
                            FrameCmd::CopyImage { src: input, dst: front },
                        );
                    }
                    assert forall|j: int|
                        0 <= j < self.history@.len() implies spec_stream_contains(
                        cmds@,
                        FrameCmd::Clear { image: spec_image_ref(#[trigger] self.history@[j]) },
                    ) by {
                        if j == 0 {
                            assert(self.history@[0] == pre_rot_hist[pre_rot_hist.len() - 1]);
                        } else {
                            assert(self.history@[j] == pre_rot_hist[j - 1]);
                        }
                    }
                }
            }
            let ghost pre_rot = self.history_src@;
            self.history_src = Ghost(seq![frame_index as int] + pre_rot.drop_last());
            proof {
                assert(self.history_src@.len() == pre_rot.len());
                assert(self.history@.len() == pre_rot_hist.len());
                assert forall|j: int| 0 <= j < self.history@.len() implies (
                #[trigger] self.history@[j]).wf() && self.history@[j].size == input.size
                    && self.history@[j].format == input.format && !self.history@[j].mipped() by {
                    if j == 0 {
                        assert(self.history@[0] == pre_rot_hist[pre_rot_hist.len() - 1]);
                    } else {
                        assert(self.history@[j] == pre_rot_hist[j - 1]);
                    }
                }
            }
        }

        // Record the per-pass work against the now-final images.
        let mvp_words = match mvp {
            Some(m) => copy_words(m),
            None => default_mvp_words(),
        };
        let direction = crate::options::normalize_frame_direction(opts.frame_direction);
        let ctxg = self.record_draws(
            &mut cmds,
            input,
            viewport,
            output,
            frame_index,
            mvp_words,
            direction,
            snapshot,
            active,
        );
        let ghost fctx = ctxg@;

        // Every intermediate pass drew this frame.
        let ghost mid_out_tags = self.outputs_src@;
        self.outputs_src = Ghost(
            Seq::new(
                n as nat,
                |j: int|
                    if j + 1 < active {
                        frame_index as int
                    } else {
                        mid_out_tags[j]
                    },
            ),
        );
        proof {
            let o = *old(self);
            let vs = spec_vp_size(*viewport);
            let plans = o.plans();
            let opts_s = spec_frame_opts(options);
            assert(opts_s == opts);
            assert(o.param_state().enabled_passes() == active);
            let ctx2 = spec_frame_ctx(
                *self,
                input,
                output,
                *viewport,
                frame_index,
                crate::options::spec_normalized_direction(opts_s.frame_direction),
                spec_mvp_words(
                    match mvp {
                        Option::Some(m) => Option::Some(m@),
                        Option::None => Option::None,
                    },
                ),
                o.param_state().values_view(),
                o.param_state().enabled_passes(),
            );
            assert(ctx2 =~= fctx);
            assert(spec_cmds_ok(cmds@, ctx2));
            assert(spec_draw_passes(cmds@) =~= Seq::new(
                o.param_state().enabled_passes(),
                |t: int| t as u32,
            ));
            assert(self.wf());
            assert forall|i: int| 0 <= i && i + 1 < active implies {
                let img = #[trigger] self.outputs@[i];
                &&& img.size == spec_pass_output_size(plans, input.size, vs, i as nat)
                &&& img.format == plans[i].config.format
                &&& img.mipped() == (plans[i].mipmap && spec_miplevels(img.size) > 1)
            } by {}
            assert forall|i: int|
                active - 1 <= i < self.outputs@.len() implies #[trigger] self.outputs@[i]
                == o.output_images()[i] by {}
            assert(self.history@.len() > 0 ==> self.history_src@[0] == frame_index);
            assert forall|j: int|
                self.history@.len() > 0 && 1 <= j < self.history_src@.len() implies
                #[trigger] self.history_src@[j] == (if opts_s.clear_history {
                -1int
            } else if o.history_images()[j - 1].matches(input.size, input.format, false) {
                o.history_tags()[j - 1]
            } else {
                -1int
            }) by {}
            assert forall|i: int| 0 <= i < self.outputs_src@.len() implies
                #[trigger] self.outputs_src@[i] == (if i + 1 < active {
                frame_index as int
            } else {
                o.output_tags()[i]
            }) by {}
            assert forall|i: int| 0 <= i < self.feedback_src@.len() implies
                #[trigger] self.feedback_src@[i] == (if i + 1 < active && plans[i].feedback {
                if o.output_images()[i].matches(
                    spec_pass_output_size(plans, input.size, vs, i as nat),
                    plans[i].config.format,
                    plans[i].mipmap,
                ) && !opts_s.clear_history {
                    o.output_tags()[i]
                } else {
                    -1int
                }
            } else if opts_s.clear_history && plans[i].feedback {
                -1int
            } else {
                o.feedback_tags()[i]
            }) by {
                if i + 1 < active && plans[i].feedback {
                    assert(self.outputs@[i] == pre_fb[i]->0);
                    assert(self.feedback_back@[i] is Some);
                    if opts_s.clear_history {
                        assert(self.feedback_src@[i] == -1int);
                    } else {
                        assert(self.feedback_src@[i] == pre_out_tags[i]);
                        assert(pre_out_tags[i] == (if o.output_images()[i].matches(
                            spec_pass_output_size(plans, input.size, vs, i as nat),
                            plans[i].config.format,
                            plans[i].mipmap,
                        ) {
                            o.output_tags()[i]
                        } else {
                            -1int
                        }));
                        assert(self.feedback_src@[i] == (if o.output_images()[i].matches(
                            spec_pass_output_size(plans, input.size, vs, i as nat),
                            plans[i].config.format,
                            plans[i].mipmap,
                        ) {
                            o.output_tags()[i]
                        } else {
                            -1int
                        }));
                    }
                } else if plans[i].feedback {
                    assert(self.feedback_back@[i] is Some);
                    assert(self.feedback_src@[i] == (if opts_s.clear_history {
                        -1int
                    } else {
                        o.feedback_tags()[i]
                    }));
                } else {
                    // Mentioning the target instantiates the swap loop's
                    // unchanged-slots fact for this index.
                    let outputs_entry = self.outputs@[i];
                    assert(!(self.feedback_back@[i] is Some));
                    assert(self.feedback_src@[i] == o.feedback_tags()[i]);
                }
            }
            assert forall|i: int|
                0 <= i && i + 1 < active && plans[i].feedback implies (
            #[trigger] self.feedback_back@[i]) is Some && self.feedback_back@[i]->0.size
                == spec_pass_output_size(plans, input.size, vs, i as nat) by {}
        }
        Ok(cmds)
    }
}

/// The extent of a viewport.
pub open spec fn spec_vp_size(vp: Viewport) -> Size {
    Size { width: vp.width, height: vp.height }
}

/// The mip filter a pass filter implies.
pub open spec fn spec_mip_of(f: FilterMode) -> MipFilterMode {
    match f {
        FilterMode::Linear => MipFilterMode::Linear,
        FilterMode::Nearest => MipFilterMode::Nearest,
    }
}

/// The `FrameCount` value a pass observes: the frame index under the pass's
/// modulus, or the raw index when the modulus is zero.
pub open spec fn spec_frame_count(frame_index: u64, m: u32) -> u32 {
    if m > 0 {
        (frame_index % (m as u64)) as u32
    } else {
        frame_index as u32
    }
}

/// The default projection: an orthographic map of the unit quad onto the
/// full target, as binary32 words.
pub open spec fn spec_default_mvp() -> Seq<u32> {
    seq![
        0x40000000u32,
        0u32,
        0u32,
        0u32,
        0u32,
        0x40000000u32,
        0u32,
        0u32,
        0u32,
        0u32,
        0x40000000u32,
        0u32,
        0xBF800000u32,
        0xBF800000u32,
        0u32,
        0x3F800000u32,
    ]
}

/// Everything a frame's recorded draws are judged against: the chain state
/// after the frame's resizes, rotation and feedback swap, and the frame's
/// inputs and snapshot.
#[verifier::ext_equal]
pub struct FrameCtx {
    pub plans: Seq<PassPlan>,
    pub outputs: Seq<OwnedImage>,
    pub history: Seq<OwnedImage>,
    pub feedback: Seq<Option<OwnedImage>>,
    pub luts: Seq<LutPlan>,
    pub samplers: Seq<u64>,
    pub input: ImageRef,
    pub output: ImageRef,
    pub vp: Viewport,
    pub frame_index: u64,
    pub direction: i32,
    pub mvp_words: Seq<u32>,
    pub snapshot: Seq<u32>,
    pub active: nat,
}

/// The frame context a chain state induces.
pub open spec fn spec_frame_ctx(
    chain: FilterChain,
    input: ImageRef,
    output: ImageRef,
    vp: Viewport,
    frame_index: u64,
    direction: i32,
    mvp_words: Seq<u32>,
    snapshot: Seq<u32>,
    active: nat,
) -> FrameCtx {
    FrameCtx {
        plans: chain.plans(),
        outputs: chain.output_images(),
        history: chain.history_images(),
        feedback: chain.feedback_images(),
        luts: chain.lut_plans_view(),
        samplers: chain.sampler_handles(),
        input,
        output,
        vp,
        frame_index,
        direction,
        mvp_words,
        snapshot,
        active,
    }
}

/// The image a texture semantic binds during pass `pass`: the frame's input
/// for `Original` and the newest history index, the previous pass's target
/// for `Source`, a ring slot for deeper history, an earlier pass's target
/// for pass outputs, the feedback source for feedback, and the lookup
/// texture for user slots. A feedback slot of a pass that keeps no feedback
/// source falls back to the frame's input.
pub open spec fn spec_bound_image(sem: TextureSemantic, c: FrameCtx, pass: int) -> ImageRef {
    match sem {
        TextureSemantic::Original => c.input,
        TextureSemantic::Source => if pass == 0 {
            c.input
        } else {
            spec_image_ref(c.outputs[pass - 1])
        },
        TextureSemantic::OriginalHistory(k) => if k == 0 {
            c.input
        } else {
            spec_image_ref(c.history[k as int])
        },
        TextureSemantic::PassOutput(j) => spec_image_ref(c.outputs[j as int]),
        TextureSemantic::PassFeedback(j) => match c.feedback[j as int] {
            Option::Some(img) => spec_image_ref(img),
            Option::None => c.input,
        },
        TextureSemantic::User(j) => c.luts[j as int].image,
    }
}

/// The full binding a texture entry of pass `pass` resolves to: built-in
/// inputs are sampled with the pass's configured wrap and filter, lookup
/// textures with their own, and the sampler handle comes from the interned
/// set.
pub open spec fn spec_bound_tex(
    e: crate::binding::TextureBinding,
    c: FrameCtx,
    pass: int,
) -> BoundTexture {
    let sem = e.semantic;
    let wrap = match sem {
        TextureSemantic::User(j) => c.luts[j as int].wrap_mode,
        _ => c.plans[pass].config.wrap_mode,
    };
    let filt = match sem {
        TextureSemantic::User(j) => c.luts[j as int].filter,
        _ => c.plans[pass].config.filter,
    };
    let mipf = spec_mip_of(filt);
    BoundTexture {
        slot: e.binding,
        semantic: sem,
        image: spec_bound_image(sem, c, pass),
        wrap_mode: wrap,
        filter: filt,
        mip_filter: mipf,
        sampler: c.samplers[crate::samplers::spec_sampler_slot(wrap, filt, filt, mipf) as int],
    }
}

/// The uniform environment pass `pass` is packed against.
pub open spec fn spec_env_of(c: FrameCtx, pass: int) -> crate::packer::EnvModel {
    crate::packer::EnvModel {
        mvp: c.mvp_words,
        output_size: if pass + 1 == c.active {
            spec_vp_size(c.vp)
        } else {
            c.outputs[pass].size
        },
        viewport_size: spec_vp_size(c.vp),
        frame_count: spec_frame_count(c.frame_index, c.plans[pass].config.frame_count_mod),
        frame_direction: c.direction,
        original_size: c.input.size,
        source_size: if pass == 0 {
            c.input.size
        } else {
            c.outputs[pass - 1].size
        },
        history_sizes: c.history.map_values(|h: OwnedImage| h.size),
        pass_output_sizes: c.outputs.map_values(|h: OwnedImage| h.size),
        feedback_sizes: c.feedback.map_values(
            |h: Option<OwnedImage>|
                match h {
                    Option::Some(img) => img.size,
                    Option::None => Size { width: 1u32, height: 1u32 },
                },
        ),
        lut_sizes: c.luts.map_values(|l: LutPlan| l.image.size),
        params: c.snapshot,
    }
}

/// What every recorded draw satisfies: it belongs to an enabled pass,
/// renders to the pass's own target (the caller's output for the final
/// pass), binds exactly the textures its table names, and stages exactly
/// the bytes its uniform entries name.
pub open spec fn spec_draw_ok(cmd: FrameCmd, c: FrameCtx) -> bool {
    match cmd {
        FrameCmd::Draw { pass, target, out_size, viewport_x, viewport_y, textures, ubo, push } => {
            let p = pass as int;
            let last = (pass as nat) + 1 == c.active;
            &&& (pass as nat) < c.active
            &&& target == (if last {
                c.output
            } else {
                spec_image_ref(c.outputs[p])
            })
            &&& out_size == (if last {
                spec_vp_size(c.vp)
            } else {
                c.outputs[p].size
            })
            &&& viewport_x == (if last {
                c.vp.x
            } else {
                0
            })
            &&& viewport_y == (if last {
                c.vp.y
            } else {
                0
            })
            &&& textures@ == c.plans[p].table.textures@.map_values(
                |e: crate::binding::TextureBinding| spec_bound_tex(e, c, p),
            )
            &&& ubo@.len() == c.plans[p].ubo_size
            &&& push@.len() == c.plans[p].push_size
            &&& forall|k: int|
                0 <= k < c.plans[p].table.uniforms@.len() ==> {
                    let e = #[trigger] c.plans[p].table.uniforms@[k];
                    (if e.block == UniformBlock::Ubo {
                        ubo@
                    } else {
                        push@
                    }).subrange(e.offset as int, e.offset + e.size)
                        == crate::packer::spec_uniform_bytes(e.semantic, spec_env_of(c, p))
                }
        },
        _ => true,
    }
}

/// Every draw in the stream satisfies `spec_draw_ok`.
pub open spec fn spec_cmds_ok(cmds: Seq<FrameCmd>, c: FrameCtx) -> bool {
    forall|i: int| 0 <= i < cmds.len() ==> spec_draw_ok(#[trigger] cmds[i], c)
}

/// The stream holds command `c` at some position.
pub open spec fn spec_stream_contains(cmds: Seq<FrameCmd>, c: FrameCmd) -> bool {
    exists|ci: int| 0 <= ci < cmds.len() && cmds[ci] == c
}

/// The ring and clear work a frame records before its passes: when the
/// ring is non-empty, a copy of the input into the newest slot; when the
/// frame clears, a zero-clear of every ring slot and every feedback
/// source; and every clear and copy precedes every draw.
pub open spec fn spec_cmds_prepared(cmds: Seq<FrameCmd>, c: FrameCtx, clear: bool) -> bool {
    &&& (c.history.len() > 0 ==> spec_stream_contains(
        cmds,
        FrameCmd::CopyImage { src: c.input, dst: spec_image_ref(c.history[0]) },
    ))
    &&& (clear ==> forall|j: int|
        0 <= j < c.history.len() ==> spec_stream_contains(
            cmds,
            FrameCmd::Clear { image: spec_image_ref(#[trigger] c.history[j]) },
        ))
    &&& (clear ==> forall|i: int|
        0 <= i < c.feedback.len() && (#[trigger] c.feedback[i]) is Some ==> spec_stream_contains(
            cmds,
            FrameCmd::Clear { image: spec_image_ref(c.feedback[i]->0) },
        ))
    &&& forall|ci: int, cj: int|
        #![trigger cmds[ci], cmds[cj]]
        0 <= ci < cmds.len() && 0 <= cj < cmds.len() && ((cmds[ci] is Clear) || (cmds[ci]
            is CopyImage)) && (cmds[cj] is Draw) ==> ci < cj
}

/// The per-pass shape of the stream: a transition of the target to the
/// render-target state immediately precedes every draw; a transition of
/// each bound texture to the shader-read state precedes it; and mipmap
/// regeneration of the target immediately follows the draw of every
/// mipmapped non-final pass.
pub open spec fn spec_draws_structured(cmds: Seq<FrameCmd>, c: FrameCtx) -> bool {
    &&& forall|ci: int|
        0 <= ci < cmds.len() ==> ((#[trigger] cmds[ci]) matches FrameCmd::Draw {
            target,
            ..
        } ==> ci >= 1 && cmds[ci - 1] == (FrameCmd::Transition {
            image: target,
            state: ResourceState::RenderTarget,
        }))
    &&& forall|ci: int|
        0 <= ci < cmds.len() ==> ((#[trigger] cmds[ci]) matches FrameCmd::Draw {
            pass,
            target,
            ..
        } ==> ((pass as nat) + 1 < c.active && c.plans[pass as int].mipmap ==> ci + 1
            < cmds.len() && cmds[ci + 1] == (FrameCmd::GenerateMipmaps { image: target })))
    &&& forall|ci: int|
        0 <= ci < cmds.len() ==> ((#[trigger] cmds[ci]) matches FrameCmd::Draw {
            textures,
            ..
        } ==> forall|t: int|
            0 <= t < textures@.len() ==> exists|cj: int|
                0 <= cj < ci && cmds[cj] == (FrameCmd::Transition {
                    image: (#[trigger] textures@[t]).image,
                    state: ResourceState::ShaderRead,
                }))
}

/// Containment survives appending.
proof fn lemma_contains_push(cmds: Seq<FrameCmd>, x: FrameCmd, c: FrameCmd)
    requires
        spec_stream_contains(cmds, x),
    ensures
        spec_stream_contains(cmds.push(c), x),
{
    let ci = choose|ci: int| 0 <= ci < cmds.len() && cmds[ci] == x;
    assert(cmds.push(c)[ci] == x);
}

/// Appending anything but a clear or copy keeps the preparation facts.
proof fn lemma_prepared_push(cmds: Seq<FrameCmd>, c: FrameCmd, k: FrameCtx, clear: bool)
    requires
        spec_cmds_prepared(cmds, k, clear),
        !(c is Clear),
        !(c is CopyImage),
    ensures
        spec_cmds_prepared(cmds.push(c), k, clear),
{
    let out = cmds.push(c);
    if k.history.len() > 0 {
        lemma_contains_push(
            cmds,
            FrameCmd::CopyImage { src: k.input, dst: spec_image_ref(k.history[0]) },
            c,
        );
    }
    if clear {
        assert forall|j: int| 0 <= j < k.history.len() implies spec_stream_contains(
            out,
            FrameCmd::Clear { image: spec_image_ref(#[trigger] k.history[j]) },
        ) by {
            lemma_contains_push(
                cmds,
                FrameCmd::Clear { image: spec_image_ref(k.history[j]) },
                c,
            );
        }
        assert forall|i: int|
            0 <= i < k.feedback.len() && (#[trigger] k.feedback[i]) is Some implies
        spec_stream_contains(
            out,
            FrameCmd::Clear { image: spec_image_ref(k.feedback[i]->0) },
        ) by {
            lemma_contains_push(
                cmds,
                FrameCmd::Clear { image: spec_image_ref(k.feedback[i]->0) },
                c,
            );
        }
    }
    assert forall|ci: int, cj: int|
        #![trigger out[ci], out[cj]]
        0 <= ci < out.len() && 0 <= cj < out.len() && ((out[ci] is Clear) || (out[ci]
            is CopyImage)) && (out[cj] is Draw) implies ci < cj by {
        if ci < cmds.len() && cj < cmds.len() {
            assert(out[ci] == cmds[ci] && out[cj] == cmds[cj]);
        }
    }
}

/// Appending a command that is not a draw keeps the per-pass shape.
proof fn lemma_structured_push(cmds: Seq<FrameCmd>, c: FrameCmd, k: FrameCtx)
    requires
        spec_draws_structured(cmds, k),
        !(c is Draw),
    ensures
        spec_draws_structured(cmds.push(c), k),
{
    let out = cmds.push(c);
    assert forall|ci: int| 0 <= ci < out.len() implies ((#[trigger] out[ci])
        matches FrameCmd::Draw { textures, .. } ==> forall|t: int|
        0 <= t < textures@.len() ==> exists|cj: int|
            0 <= cj < ci && out[cj] == (FrameCmd::Transition {
                image: (#[trigger] textures@[t]).image,
                state: ResourceState::ShaderRead,
            })) by {
        if ci < cmds.len() {
            match cmds[ci] {
                FrameCmd::Draw { textures, .. } => {
                    assert(cmds[ci] == out[ci]);
                    assert forall|t: int| 0 <= t < textures@.len() implies exists|cj: int|
                        0 <= cj < ci && out[cj] == (FrameCmd::Transition {
                            image: (#[trigger] textures@[t]).image,
                            state: ResourceState::ShaderRead,
                        }) by {
                        let cj = choose|cj: int|
                            0 <= cj < ci && cmds[cj] == (FrameCmd::Transition {
                                image: textures@[t].image,
                                state: ResourceState::ShaderRead,
                            });
                        assert(out[cj] == cmds[cj]);
                    }
                },
                _ => {
                },
            }
        }
    }
}

/// The passes of the draws in the stream, in record order.
pub open spec fn spec_draw_passes(cmds: Seq<FrameCmd>) -> Seq<u32>
    decreases cmds.len(),
{
    if cmds.len() == 0 {
        Seq::empty()
    } else {
        spec_draw_passes(cmds.drop_last()) + (match cmds.last() {
            FrameCmd::Draw { pass, .. } => seq![pass],
            _ => Seq::<u32>::empty(),
        })
    }
}

/// The output size of pass `i`: its scale rule applied to its source size.
pub open spec fn spec_pass_output_size(
    plans: Seq<PassPlan>,
    input_size: Size,
    vp: Size,
    i: nat,
) -> Size
    decreases i,
{
    let src = if i == 0 {
        input_size
    } else {
        spec_pass_output_size(plans, input_size, vp, (i - 1) as nat)
    };
    crate::scaling::spec_scale_size(plans[i as int].config.scaling, src, vp)
}

/// The source size pass `i` reads: the input for pass 0, pass `i - 1`'s
/// output size otherwise.
pub open spec fn spec_pass_source_size(
    plans: Seq<PassPlan>,
    input_size: Size,
    vp: Size,
    i: nat,
) -> Size {
    if i == 0 {
        input_size
    } else {
        spec_pass_output_size(plans, input_size, vp, (i - 1) as nat)
    }
}

/// The reference an owned image is bound by.
fn image_ref(img: &OwnedImage) -> (r: ImageRef)
    ensures
        r == spec_image_ref(*img),
{
    ImageRef { id: img.id, size: img.size, format: img.format, levels: img.max_mipmap }
}

/// A copy of a word vector.
fn copy_words(v: &Vec<u32>) -> (r: Vec<u32>)
    ensures
        r@ == v@,
{
    let n = v.len();
    let mut out: Vec<u32> = Vec::new();
    let mut i: usize = 0;
    while i < n
        invariant
            i <= n,
            n == v@.len(),
            out@ == v@.subrange(0, i as int),
        decreases n - i,
    {
        let w = v[i];
        out.push(w);
        proof {
            assert(out@ =~= v@.subrange(0, i + 1));
        }
        i = i + 1;
    }
    proof {
        assert(out@ =~= v@);
    }
    out
}

/// The default projection as a word vector.
fn default_mvp_words() -> (r: Vec<u32>)
    ensures
        r@ == spec_default_mvp(),
{
    let mut out: Vec<u32> = Vec::new();
    out.push(0x40000000);
    out.push(0);
    out.push(0);
    out.push(0);
    out.push(0);
    out.push(0x40000000);
    out.push(0);
    out.push(0);
    out.push(0);
    out.push(0);
    out.push(0x40000000);
    out.push(0);
    out.push(0xBF800000);
    out.push(0xBF800000);
    out.push(0);
    out.push(0x3F800000);
    proof {
        assert(out@ =~= spec_default_mvp());
    }
    out
}

/// The history ring advances one slot per frame: when a frame neither
/// clears the ring nor re-creates the slot, the provenance the newest slot
/// carried going into the frame is exactly what the second slot carries
/// coming out of it. So what a shader saw as `OriginalHistory1` during
/// frame `N + 1` is the input of frame `N`.
pub proof fn lemma_history_one_frame_delay(
    before: FilterChain,
    after: FilterChain,
    input: ImageRef,
    n: u64,
)
    requires
        before.history_tags().len() >= 2,
        after.history_tags().len() == before.history_tags().len(),
        before.history_tags()[0] == n as int,
        before.history_images()[0].matches(input.size, input.format, false),
        // What `frame` ensures of the ring on a successful uncleared frame:
        forall|j: int|
            1 <= j < after.history_tags().len() ==> #[trigger] after.history_tags()[j] == (
            if before.history_images()[j - 1].matches(input.size, input.format, false) {
                before.history_tags()[j - 1]
            } else {
                -1int
            }),
    ensures
        after.history_tags()[1] == n,
{
}

/// A chain whose passes reference no history allocates no history ring.
pub proof fn lemma_no_history_no_ring(chain: FilterChain)
    requires
        chain.wf(),
        spec_required_history(spec_tables_of(chain.plans())) == 0,
    ensures
        chain.history_images().len() == 0,
{
}

/// With a zero modulus the raw frame index feeds `FrameCount`; a positive
/// modulus wraps it.
pub proof fn lemma_frame_count_mod(frame_index: u64, m: u32)
    ensures
        m == 0 ==> spec_frame_count(frame_index, m) == frame_index as u32,
        m > 0 ==> spec_frame_count(frame_index, m) == (frame_index % (m as u64)) as u32,
        m > 0 ==> (spec_frame_count(frame_index, m) as u64) < m as u64,
{
    if m > 0 {
        assert(frame_index % (m as u64) < m as u64);
    }
}

/// Every frame-direction request collapses to a sign: negative requests
/// mean backward, and zero or positive requests mean forward.
pub proof fn lemma_frame_direction_sign(d: i32)
    ensures
        crate::options::spec_normalized_direction(d) == -1 || crate::options::spec_normalized_direction(d) == 1,
        d == 0 ==> crate::options::spec_normalized_direction(d) == 1,
        d >= 1 ==> crate::options::spec_normalized_direction(d) == 1,
        d <= -1 ==> crate::options::spec_normalized_direction(d) == -1,
{
}

/// A parameter write is observed by the next frame: after a successful set
/// of parameter `j` to `v`, a frame whose snapshot is taken from that state
/// stages exactly the bytes of `v` for every uniform entry bound to
/// parameter `j`, in every recorded draw.
pub proof fn lemma_parameter_observed(
    cmds: Seq<FrameCmd>,
    c: FrameCtx,
    ci: int,
    k: int,
    j: u32,
    v: u32,
)
    requires
        spec_cmds_ok(cmds, c),
        0 <= ci < cmds.len(),
        cmds[ci] is Draw,
        0 <= (cmds[ci]->Draw_pass as int) < c.plans.len(),
        0 <= k < c.plans[cmds[ci]->Draw_pass as int].table.uniforms@.len(),
        c.plans[cmds[ci]->Draw_pass as int].table.uniforms@[k].semantic
            == UniformSemantic::Parameter(j),
        0 <= (j as int) < c.snapshot.len(),
        c.snapshot[j as int] == v,
    ensures
        ({
            let e = c.plans[cmds[ci]->Draw_pass as int].table.uniforms@[k];
            (if e.block == UniformBlock::Ubo {
                cmds[ci]->Draw_ubo@
            } else {
                cmds[ci]->Draw_push@
            }).subrange(e.offset as int, e.offset + e.size)
                == crate::packer::spec_le4(v)
        }),
{
    assert(spec_draw_ok(cmds[ci], c));
}

/// A later prefix referencing feedback carries to the whole list.
proof fn lemma_feedback_prefix(tables: Seq<BindingTable>, j: u32, k: int)
    requires
        0 <= k <= tables.len(),
        spec_feedback_referenced(tables.subrange(0, k), j),
    ensures
        spec_feedback_referenced(tables, j),
    decreases tables.len() - k,
{
    if k < tables.len() {
        assert(tables.subrange(0, k + 1).drop_last() =~= tables.subrange(0, k));
        lemma_feedback_prefix(tables, j, k + 1);
    } else {
        assert(tables.subrange(0, k) =~= tables);
    }
}

} // verus!
