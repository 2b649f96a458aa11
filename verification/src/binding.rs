//! The reflection binder: from a shader's reflection to a fixed binding
//! table.

use vstd::prelude::*;
use crate::error::FilterChainError;
use crate::semantics::spec_name_views;
use crate::semantics::spec_resolve_texture;
use crate::semantics::spec_resolve_uniform;
use crate::semantics::resolve_texture;
use crate::semantics::resolve_uniform;
use crate::semantics::Alias;
use crate::semantics::TextureSemantic;
use crate::semantics::UniformSemantic;

verus! {

/// One member of a uniform block, as shader reflection reports it.
#[derive(Clone, Debug)]
pub struct UniformMemberReflection {
    pub name: String,
    /// Byte offset within the block.
    pub offset: u32,
    /// Byte size of the member.
    pub size: u32,
}

/// One texture slot, as shader reflection reports it.
#[derive(Clone, Debug)]
pub struct TextureSlotReflection {
    pub name: String,
    /// The slot index the shader samples from.
    pub binding: u32,
}

/// A shader's reflection for one pass: its uniform block, its push-constant
/// block, and its texture slots.
#[derive(Clone, Debug)]
pub struct PassReflection {
    pub ubo_size: u32,
    pub ubo_members: Vec<UniformMemberReflection>,
    pub push_size: u32,
    pub push_members: Vec<UniformMemberReflection>,
    pub textures: Vec<TextureSlotReflection>,
}

/// Which staging buffer a uniform entry is written into.
#[derive(Clone, Copy, Debug, PartialEq, Eq, Structural)]
pub enum UniformBlock {
    Ubo,
    Push,
}

/// One resolved uniform entry of a pass's binding table.
#[derive(Clone, Copy, Debug, PartialEq, Eq, Structural)]
pub struct UniformBinding {
    pub block: UniformBlock,
    pub semantic: UniformSemantic,
    pub offset: u32,
    pub size: u32,
}

/// One resolved texture entry of a pass's binding table.
#[derive(Clone, Copy, Debug, PartialEq, Eq, Structural)]
pub struct TextureBinding {
    pub binding: u32,
    pub semantic: TextureSemantic,
}

/// A pass's binding table: fixed at construction, consulted unchanged every
/// frame.
#[derive(Clone, Debug, PartialEq)]
pub struct BindingTable {
    pub uniforms: Vec<UniformBinding>,
    pub textures: Vec<TextureBinding>,
}

/// The naming context a pass's reflection is resolved against.
#[derive(Clone, Debug)]
pub struct BindingContext {
    /// The pass being bound.
    pub pass_index: u32,
    /// How many passes the chain has.
    pub total_passes: u32,
    /// Alias names exported by passes.
    pub aliases: Vec<Alias>,
    /// Lookup-texture names, in preset order.
    pub lut_names: Vec<String>,
    /// User-parameter names, in preset order.
    pub param_names: Vec<String>,
}

impl BindingContext {
    pub open spec fn wf(&self) -> bool {
        &&& self.pass_index < self.total_passes
        &&& self.lut_names@.len() <= u32::MAX
        &&& self.param_names@.len() <= u32::MAX
    }
}

/// Whether a texture semantic can be satisfied for the pass being bound:
/// pass outputs must come from an earlier pass, feedback from a pass of the
/// chain, and lookup textures from the preset's list.
pub open spec fn spec_texture_valid(t: TextureSemantic, ctx: BindingContext) -> bool {
    match t {
        TextureSemantic::Original => true,
        TextureSemantic::Source => true,
        TextureSemantic::OriginalHistory(_) => true,
        TextureSemantic::PassOutput(j) => j < ctx.pass_index,
        TextureSemantic::PassFeedback(j) => j < ctx.total_passes,
        TextureSemantic::User(j) => j < ctx.lut_names@.len(),
    }
}

/// The byte width a uniform semantic is written with.
pub open spec fn spec_uniform_width(u: UniformSemantic) -> nat {
    match u {
        UniformSemantic::Mvp => 64,
        UniformSemantic::OutputSize => 16,
        UniformSemantic::FinalViewportSize => 16,
        UniformSemantic::FrameCount => 4,
        UniformSemantic::FrameDirection => 4,
        UniformSemantic::TextureSize(_) => 16,
        UniformSemantic::Parameter(_) => 4,
    }
}

/// Whether one reflected uniform member maps to exactly one satisfiable
/// semantic, with the width reflection declared, inside its block.
pub open spec fn spec_member_ok(
    m: UniformMemberReflection,
    ctx: BindingContext,
    block_size: nat,
) -> bool {
    let sem = spec_resolve_uniform(
        m.name@,
        ctx.aliases@,
        spec_name_views(ctx.lut_names@),
        spec_name_views(ctx.param_names@),
    );
    &&& sem is Some
    &&& (match sem->0 {
        UniformSemantic::TextureSize(t) => spec_texture_valid(t, ctx),
        _ => true,
    })
    &&& m.size == spec_uniform_width(sem->0)
    &&& m.offset + m.size <= block_size
}

/// The table entry a reflected member produces.
pub open spec fn spec_member_entry(
    m: UniformMemberReflection,
    ctx: BindingContext,
    block: UniformBlock,
) -> UniformBinding {
    UniformBinding {
        block,
        semantic: spec_resolve_uniform(
            m.name@,
            ctx.aliases@,
            spec_name_views(ctx.lut_names@),
            spec_name_views(ctx.param_names@),
        )->0,
        offset: m.offset,
        size: m.size,
    }
}

/// Whether one reflected texture slot maps to a satisfiable semantic.
pub open spec fn spec_slot_ok(t: TextureSlotReflection, ctx: BindingContext) -> bool {
    let sem = spec_resolve_texture(t.name@, ctx.aliases@, spec_name_views(ctx.lut_names@));
    &&& sem is Some
    &&& spec_texture_valid(sem->0, ctx)
}

/// The table entry a reflected texture slot produces.
pub open spec fn spec_slot_entry(t: TextureSlotReflection, ctx: BindingContext) -> TextureBinding {
    TextureBinding {
        binding: t.binding,
        semantic: spec_resolve_texture(t.name@, ctx.aliases@, spec_name_views(ctx.lut_names@))->0,
    }
}

/// Whether every member and slot of a pass's reflection resolves.
pub open spec fn spec_reflection_ok(refl: PassReflection, ctx: BindingContext) -> bool {
    &&& forall|i: int|
        0 <= i < refl.ubo_members@.len() ==> spec_member_ok(
            #[trigger] refl.ubo_members@[i],
            ctx,
            refl.ubo_size as nat,
        )
    &&& forall|i: int|
        0 <= i < refl.push_members@.len() ==> spec_member_ok(
            #[trigger] refl.push_members@[i],
            ctx,
            refl.push_size as nat,
        )
    &&& forall|i: int|
        0 <= i < refl.textures@.len() ==> spec_slot_ok(#[trigger] refl.textures@[i], ctx)
}

/// The uniform entries of a resolved pass, uniform block first, then push
/// constants, each in reflection order.
pub open spec fn spec_uniform_entries(refl: PassReflection, ctx: BindingContext) -> Seq<
    UniformBinding,
> {
    refl.ubo_members@.map_values(|m: UniformMemberReflection| spec_member_entry(m, ctx, UniformBlock::Ubo))
        + refl.push_members@.map_values(
        |m: UniformMemberReflection| spec_member_entry(m, ctx, UniformBlock::Push),
    )
}

/// The texture entries of a resolved pass, in reflection order.
pub open spec fn spec_texture_entries(refl: PassReflection, ctx: BindingContext) -> Seq<
    TextureBinding,
> {
    refl.textures@.map_values(|t: TextureSlotReflection| spec_slot_entry(t, ctx))
}

/// What a correctly built binding table holds for `refl` under `ctx`.
pub open spec fn spec_table_matches(table: BindingTable, refl: PassReflection, ctx: BindingContext) -> bool {
    &&& spec_reflection_ok(refl, ctx)
    &&& table.uniforms@ == spec_uniform_entries(refl, ctx)
    &&& table.textures@ == spec_texture_entries(refl, ctx)
}

/// Resolve a pass's reflection into its binding table. Every reflected
/// uniform member and texture slot must map to exactly one satisfiable
/// semantic; any unmapped or unsatisfiable name fails construction with
/// `InvalidBinding`, so a table is fixed before the first frame runs.
pub fn bind_reflection(refl: &PassReflection, ctx: &BindingContext) -> (r: Result<
    BindingTable,
    FilterChainError,
>)
    requires
        ctx.wf(),
    ensures
        match r {
            Ok(table) => spec_table_matches(table, *refl, *ctx),
            Err(e) => e == FilterChainError::InvalidBinding && !spec_reflection_ok(*refl, *ctx),
        },
{
    let mut uniforms: Vec<UniformBinding> = Vec::new();
    let mut textures: Vec<TextureBinding> = Vec::new();

    let n_ubo = refl.ubo_members.len();
    let mut i: usize = 0;
    while i < n_ubo
        invariant
            ctx.wf(),
            i <= n_ubo,
            n_ubo == refl.ubo_members@.len(),
            forall|j: int|
                0 <= j < i ==> spec_member_ok(
                    #[trigger] refl.ubo_members@[j],
                    *ctx,
                    refl.ubo_size as nat,
                ),
            uniforms@ == refl.ubo_members@.subrange(0, i as int).map_values(
                |m: UniformMemberReflection| spec_member_entry(m, *ctx, UniformBlock::Ubo),
            ),
        decreases n_ubo - i,
    {
        match check_member(&refl.ubo_members[i], ctx, refl.ubo_size, UniformBlock::Ubo) {
            Ok(entry) => {
                uniforms.push(entry);
            },
            Err(e) => {
                return Err(e);
            },
        }
        proof {
            assert(refl.ubo_members@.subrange(0, i + 1).drop_last() =~= refl.ubo_members@.subrange(
                0,
                i as int,
            ));
            assert(uniforms@ =~= refl.ubo_members@.subrange(0, i + 1).map_values(
                |m: UniformMemberReflection| spec_member_entry(m, *ctx, UniformBlock::Ubo),
            ));
        }
        i = i + 1;
    }

    let n_push = refl.push_members.len();
    let mut k: usize = 0;
    while k < n_push
        invariant
            ctx.wf(),
            k <= n_push,
            n_push == refl.push_members@.len(),
            forall|j: int|
                0 <= j < refl.ubo_members@.len() ==> spec_member_ok(
                    #[trigger] refl.ubo_members@[j],
                    *ctx,
                    refl.ubo_size as nat,
                ),
            forall|j: int|
                0 <= j < k ==> spec_member_ok(
                    #[trigger] refl.push_members@[j],
                    *ctx,
                    refl.push_size as nat,
                ),
            uniforms@ == refl.ubo_members@.map_values(
                |m: UniformMemberReflection| spec_member_entry(m, *ctx, UniformBlock::Ubo),
            ) + refl.push_members@.subrange(0, k as int).map_values(
                |m: UniformMemberReflection| spec_member_entry(m, *ctx, UniformBlock::Push),
            ),
        decreases n_push - k,
    {
        match check_member(&refl.push_members[k], ctx, refl.push_size, UniformBlock::Push) {
            Ok(entry) => {
                uniforms.push(entry);
            },
            Err(e) => {
                return Err(e);
            },
        }
        proof {
            assert(refl.push_members@.subrange(0, k + 1).drop_last()
                =~= refl.push_members@.subrange(0, k as int));
            assert(uniforms@ =~= refl.ubo_members@.map_values(
                |m: UniformMemberReflection| spec_member_entry(m, *ctx, UniformBlock::Ubo),
            ) + refl.push_members@.subrange(0, k + 1).map_values(
                |m: UniformMemberReflection| spec_member_entry(m, *ctx, UniformBlock::Push),
            ));
        }
        k = k + 1;
    }

    let n_tex = refl.textures.len();
    let mut t: usize = 0;
    while t < n_tex
        invariant
            ctx.wf(),
            t <= n_tex,
            n_tex == refl.textures@.len(),
            forall|j: int| 0 <= j < t ==> spec_slot_ok(#[trigger] refl.textures@[j], *ctx),
            textures@ == refl.textures@.subrange(0, t as int).map_values(
                |s: TextureSlotReflection| spec_slot_entry(s, *ctx),
            ),
        decreases n_tex - t,
    {
        let slot = &refl.textures[t];
        match resolve_texture(slot.name.as_str(), &ctx.aliases, &ctx.lut_names) {
            Some(sem) => {
                if !texture_valid(sem, ctx) {
                    return Err(FilterChainError::InvalidBinding);
                }
                textures.push(TextureBinding { binding: slot.binding, semantic: sem });
            },
            None => {
                return Err(FilterChainError::InvalidBinding);
            },
        }
        proof {
            assert(refl.textures@.subrange(0, t + 1).drop_last() =~= refl.textures@.subrange(
                0,
                t as int,
            ));
            assert(textures@ =~= refl.textures@.subrange(0, t + 1).map_values(
                |s: TextureSlotReflection| spec_slot_entry(s, *ctx),
            ));
        }
        t = t + 1;
    }

    proof {
        assert(refl.ubo_members@.subrange(0, refl.ubo_members@.len() as int)
            =~= refl.ubo_members@);
        assert(refl.push_members@.subrange(0, refl.push_members@.len() as int)
            =~= refl.push_members@);
        assert(refl.textures@.subrange(0, refl.textures@.len() as int) =~= refl.textures@);
    }
    Ok(BindingTable { uniforms, textures })
}

/// Whether a resolved texture semantic can be satisfied for the pass.
fn texture_valid(sem: TextureSemantic, ctx: &BindingContext) -> (r: bool)
    requires
        ctx.wf(),
    ensures
        r == spec_texture_valid(sem, *ctx),
{
    match sem {
        TextureSemantic::Original => true,
        TextureSemantic::Source => true,
        TextureSemantic::OriginalHistory(_) => true,
        TextureSemantic::PassOutput(j) => j < ctx.pass_index,
        TextureSemantic::PassFeedback(j) => j < ctx.total_passes,
        TextureSemantic::User(j) => (j as usize) < ctx.lut_names.len(),
    }
}

/// Resolve and validate one reflected uniform member.
fn check_member(
    m: &UniformMemberReflection,
    ctx: &BindingContext,
    block_size: u32,
    block: UniformBlock,
) -> (r: Result<UniformBinding, FilterChainError>)
    requires
        ctx.wf(),
    ensures
        match r {
            Ok(entry) => spec_member_ok(*m, *ctx, block_size as nat) && entry == spec_member_entry(
                *m,
                *ctx,
                block,
            ),
            Err(e) => e == FilterChainError::InvalidBinding && !spec_member_ok(
                *m,
                *ctx,
                block_size as nat,
            ),
        },
{
    let sem = match resolve_uniform(m.name.as_str(), &ctx.aliases, &ctx.lut_names, &ctx.param_names) {
        Some(sem) => sem,
        None => {
            return Err(FilterChainError::InvalidBinding);
        },
    };
    let valid = match sem {
        UniformSemantic::TextureSize(t) => texture_valid(t, ctx),
        _ => true,
    };
    if !valid {
        return Err(FilterChainError::InvalidBinding);
    }
    let width: u32 = match sem {
        UniformSemantic::Mvp => 64,
        UniformSemantic::OutputSize => 16,
        UniformSemantic::FinalViewportSize => 16,
        UniformSemantic::FrameCount => 4,
        UniformSemantic::FrameDirection => 4,
        UniformSemantic::TextureSize(_) => 16,
        UniformSemantic::Parameter(_) => 4,
    };
    if m.size != width {
        return Err(FilterChainError::InvalidBinding);
    }
    if m.offset > block_size || block_size - m.offset < m.size {
        return Err(FilterChainError::InvalidBinding);
    }
    Ok(UniformBinding { block, semantic: sem, offset: m.offset, size: m.size })
}

/// Binding tables are reproducible: resolving the same reflection under the
/// same naming context twice yields tables with equal entries in equal
/// order, so re-creating a chain from the same preset re-creates its tables.
pub proof fn lemma_binding_table_reproducible(
    refl: PassReflection,
    ctx: BindingContext,
    t1: BindingTable,
    t2: BindingTable,
)
    requires
        spec_table_matches(t1, refl, ctx),
        spec_table_matches(t2, refl, ctx),
    ensures
        t1.uniforms@ == t2.uniforms@,
        t1.textures@ == t2.textures@,
{
}

} // verus!
