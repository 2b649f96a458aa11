//! The uniform packer: staging-buffer bytes from semantics and the
//! frame's values.

use vstd::prelude::*;
use crate::binding::UniformBinding;
use crate::binding::UniformBlock;
use crate::binding::spec_uniform_width;
use crate::encode::spec_f32_bits_of_u32;
use crate::encode::spec_f32_recip_bits_of_u32;
use crate::encode::f32_bits_of_u32;
use crate::encode::f32_recip_bits_of_u32;
use crate::semantics::TextureSemantic;
use crate::semantics::UniformSemantic;
use crate::size::Size;

verus! {

/// The four little-endian bytes of a 32-bit scalar word.
pub open spec fn spec_le4(w: u32) -> Seq<u8> {
    seq![
        (w % 256) as u8,
        ((w / 256) % 256) as u8,
        ((w / 65536) % 256) as u8,
        ((w / 16777216) % 256) as u8,
    ]
}

/// The bytes of a sequence of 32-bit words, in order, each little-endian.
pub open spec fn spec_words_bytes(words: Seq<u32>) -> Seq<u8>
    decreases words.len(),
{
    if words.len() == 0 {
        Seq::empty()
    } else {
        spec_words_bytes(words.drop_last()) + spec_le4(words.last())
    }
}

/// The 16 bytes of a size uniform: `(w, h, 1/w, 1/h)` as binary32 words,
/// with `1/0` written as zero.
pub open spec fn spec_size_bytes(s: Size) -> Seq<u8> {
    spec_le4(spec_f32_bits_of_u32(s.width as nat) as u32) + spec_le4(
        spec_f32_bits_of_u32(s.height as nat) as u32,
    ) + spec_le4(spec_f32_recip_bits_of_u32(s.width as nat) as u32) + spec_le4(
        spec_f32_recip_bits_of_u32(s.height as nat) as u32,
    )
}

/// Everything the packer reads when it fills one pass's staging buffers:
/// the per-frame values and the sizes of every image the pass can name.
pub struct UniformEnv {
    /// The 16 words of the projection matrix, row by row.
    pub mvp: Vec<u32>,
    /// Size of the pass's own render target.
    pub output_size: Size,
    /// Size of the final viewport.
    pub viewport_size: Size,
    /// The frame index after the pass's modulus is applied.
    pub frame_count: u32,
    /// The normalized playback direction.
    pub frame_direction: i32,
    /// Size of this frame's input image.
    pub original_size: Size,
    /// Size of the pass's source image.
    pub source_size: Size,
    /// Sizes of the history ring slots, newest first.
    pub history_sizes: Vec<Size>,
    /// Sizes of the outputs of earlier passes.
    pub pass_output_sizes: Vec<Size>,
    /// Sizes of the feedback sources, one per pass.
    pub feedback_sizes: Vec<Size>,
    /// Sizes of the lookup textures.
    pub lut_sizes: Vec<Size>,
    /// The frame's parameter snapshot, one word per preset parameter.
    pub params: Vec<u32>,
}

/// The specification-level contents of a `UniformEnv`.
#[verifier::ext_equal]
pub struct EnvModel {
    pub mvp: Seq<u32>,
    pub output_size: Size,
    pub viewport_size: Size,
    pub frame_count: u32,
    pub frame_direction: i32,
    pub original_size: Size,
    pub source_size: Size,
    pub history_sizes: Seq<Size>,
    pub pass_output_sizes: Seq<Size>,
    pub feedback_sizes: Seq<Size>,
    pub lut_sizes: Seq<Size>,
    pub params: Seq<u32>,
}

impl View for UniformEnv {
    type V = EnvModel;

    open spec fn view(&self) -> EnvModel {
        EnvModel {
            mvp: self.mvp@,
            output_size: self.output_size,
            viewport_size: self.viewport_size,
            frame_count: self.frame_count,
            frame_direction: self.frame_direction,
            original_size: self.original_size,
            source_size: self.source_size,
            history_sizes: self.history_sizes@,
            pass_output_sizes: self.pass_output_sizes@,
            feedback_sizes: self.feedback_sizes@,
            lut_sizes: self.lut_sizes@,
            params: self.params@,
        }
    }
}

/// The size the environment reports for a texture semantic.
pub open spec fn spec_texture_size(t: TextureSemantic, env: EnvModel) -> Size {
    match t {
        TextureSemantic::Original => env.original_size,
        TextureSemantic::Source => env.source_size,
        TextureSemantic::OriginalHistory(k) => if k == 0 {
            env.original_size
        } else {
            env.history_sizes[k - 1]
        },
        TextureSemantic::PassOutput(j) => env.pass_output_sizes[j as int],
        TextureSemantic::PassFeedback(j) => env.feedback_sizes[j as int],
        TextureSemantic::User(j) => env.lut_sizes[j as int],
    }
}

/// Whether the environment has a value for a semantic.
pub open spec fn spec_env_covers(env: EnvModel, u: UniformSemantic) -> bool {
    match u {
        UniformSemantic::Mvp => env.mvp.len() == 16,
        UniformSemantic::TextureSize(t) => match t {
            TextureSemantic::OriginalHistory(k) => k == 0 || k - 1 < env.history_sizes.len(),
            TextureSemantic::PassOutput(j) => j < env.pass_output_sizes.len(),
            TextureSemantic::PassFeedback(j) => j < env.feedback_sizes.len(),
            TextureSemantic::User(j) => j < env.lut_sizes.len(),
            _ => true,
        },
        UniformSemantic::Parameter(j) => j < env.params.len(),
        _ => true,
    }
}

/// The bytes a uniform semantic is written as.
pub open spec fn spec_uniform_bytes(u: UniformSemantic, env: EnvModel) -> Seq<u8> {
    match u {
        UniformSemantic::Mvp => spec_words_bytes(env.mvp),
        UniformSemantic::OutputSize => spec_size_bytes(env.output_size),
        UniformSemantic::FinalViewportSize => spec_size_bytes(env.viewport_size),
        UniformSemantic::FrameCount => spec_le4(env.frame_count),
        UniformSemantic::FrameDirection => spec_le4(env.frame_direction as u32),
        UniformSemantic::TextureSize(t) => spec_size_bytes(spec_texture_size(t, env)),
        UniformSemantic::Parameter(j) => spec_le4(env.params[j as int]),
    }
}

/// Append the four little-endian bytes of a word.
fn push_le4(out: &mut Vec<u8>, w: u32)
    ensures
        final(out)@ == old(out)@ + spec_le4(w),
{
    out.push((w % 256) as u8);
    out.push(((w / 256) % 256) as u8);
    out.push(((w / 65536) % 256) as u8);
    out.push(((w / 16777216) % 256) as u8);
    proof {
        assert(final(out)@ =~= old(out)@ + spec_le4(w));
    }
}

/// Append the 16 bytes of a size uniform.
fn push_size_bytes(out: &mut Vec<u8>, s: Size)
    ensures
        final(out)@ == old(out)@ + spec_size_bytes(s),
{
    push_le4(out, f32_bits_of_u32(s.width));
    push_le4(out, f32_bits_of_u32(s.height));
    push_le4(out, f32_recip_bits_of_u32(s.width));
    push_le4(out, f32_recip_bits_of_u32(s.height));
    proof {
        assert(final(out)@ =~= old(out)@ + spec_size_bytes(s));
    }
}

/// The bytes written for one uniform semantic, of exactly its width.
pub fn uniform_bytes(u: &UniformSemantic, env: &UniformEnv) -> (r: Vec<u8>)
    requires
        spec_env_covers(env@, *u),
    ensures
        r@ == spec_uniform_bytes(*u, env@),
        r@.len() == spec_uniform_width(*u),
{
    let mut out: Vec<u8> = Vec::new();
    match *u {
        UniformSemantic::Mvp => {
            let mut i: usize = 0;
            while i < 16
                invariant
                    env.mvp@.len() == 16,
                    i <= 16,
                    out@ == spec_words_bytes(env.mvp@.subrange(0, i as int)),
                    out@.len() == 4 * i,
                decreases 16 - i,
            {
                push_le4(&mut out, env.mvp[i]);
                proof {
                    assert(env.mvp@.subrange(0, i + 1).drop_last() =~= env.mvp@.subrange(
                        0,
                        i as int,
                    ));
                }
                i = i + 1;
            }
            proof {
                assert(env.mvp@.subrange(0, 16) =~= env.mvp@);
            }
        },
        UniformSemantic::OutputSize => {
            push_size_bytes(&mut out, env.output_size);
        },
        UniformSemantic::FinalViewportSize => {
            push_size_bytes(&mut out, env.viewport_size);
        },
        UniformSemantic::FrameCount => {
            push_le4(&mut out, env.frame_count);
        },
        UniformSemantic::FrameDirection => {
            push_le4(&mut out, env.frame_direction as u32);
        },
        UniformSemantic::TextureSize(t) => {
            let sz: Size = match t {
                TextureSemantic::Original => env.original_size,
                TextureSemantic::Source => env.source_size,
                TextureSemantic::OriginalHistory(k) => if k == 0 {
                    env.original_size
                } else {
                    env.history_sizes[(k - 1) as usize]
                },
                TextureSemantic::PassOutput(j) => env.pass_output_sizes[j as usize],
                TextureSemantic::PassFeedback(j) => env.feedback_sizes[j as usize],
                TextureSemantic::User(j) => env.lut_sizes[j as usize],
            };
            push_size_bytes(&mut out, sz);
        },
        UniformSemantic::Parameter(j) => {
            push_le4(&mut out, env.params[j as usize]);
        },
    }
    out
}

/// Overwrite `buf[offset .. offset + src.len()]` with `src`, leaving every
/// other byte as it was.
fn splice(buf: &mut Vec<u8>, offset: usize, src: &Vec<u8>)
    requires
        offset + src@.len() <= old(buf)@.len(),
    ensures
        final(buf)@.len() == old(buf)@.len(),
        final(buf)@.subrange(offset as int, offset + src@.len()) == src@,
        forall|p: int|
            0 <= p < old(buf)@.len() && !(offset <= p < offset + src@.len())
                ==> final(buf)@[p] == old(buf)@[p],
{
    let n = src.len();
    let total = buf.len();
    let mut i: usize = 0;
    while i < n
        invariant
            i <= n,
            n == src@.len(),
            offset + n <= total,
            total == buf@.len(),
            buf@.len() == old(buf)@.len(),
            forall|t: int| 0 <= t < i ==> buf@[offset + t] == src@[t],
            forall|p: int|
                0 <= p < old(buf)@.len() && !(offset <= p < offset + n) ==> buf@[p] == old(
                    buf,
                )@[p],
        decreases n - i,
    {
        let b = src[i];
        buf[offset + i] = b;
        i = i + 1;
    }
    proof {
        assert(buf@.subrange(offset as int, offset + src@.len()) =~= src@);
    }
}

/// Whether entry `e` is laid out inside a block of `block_size` bytes with
/// the width its semantic requires.
pub open spec fn spec_entry_fits(e: UniformBinding, block_size: nat) -> bool {
    &&& e.size == spec_uniform_width(e.semantic)
    &&& e.offset + e.size <= block_size
}

/// Whether the entries of `block` occupy pairwise disjoint byte ranges.
pub open spec fn spec_block_disjoint(entries: Seq<UniformBinding>, block: UniformBlock) -> bool {
    forall|i: int, j: int|
        #![trigger entries[i], entries[j]]
        0 <= i < j < entries.len() && entries[i].block == block && entries[j].block == block
            ==> (entries[i].offset + entries[i].size <= entries[j].offset || entries[j].offset
            + entries[j].size <= entries[i].offset)
}

/// Whether byte `p` lies inside one of the first `k` entries of `block`.
pub open spec fn spec_block_covers_prefix(
    entries: Seq<UniformBinding>,
    block: UniformBlock,
    p: int,
    k: int,
) -> bool {
    exists|i: int|
        0 <= i < k && i < entries.len() && (#[trigger] entries[i]).block == block
            && entries[i].offset <= p < entries[i].offset + entries[i].size
}

/// Whether byte `p` lies inside some entry of `block`.
pub open spec fn spec_block_covers(
    entries: Seq<UniformBinding>,
    block: UniformBlock,
    p: int,
) -> bool {
    spec_block_covers_prefix(entries, block, p, entries.len() as int)
}

/// Check that the entries of each block occupy pairwise disjoint ranges.
pub fn check_blocks_disjoint(entries: &Vec<UniformBinding>) -> (r: bool)
    ensures
        r == (spec_block_disjoint(entries@, UniformBlock::Ubo) && spec_block_disjoint(
            entries@,
            UniformBlock::Push,
        )),
{
    let n = entries.len();
    let mut i: usize = 0;
    while i < n
        invariant
            i <= n,
            n == entries@.len(),
            forall|a: int, b: int|
                #![trigger entries@[a], entries@[b]]
                0 <= a < b < n && a < i && entries@[a].block == entries@[b].block ==> (
                entries@[a].offset + entries@[a].size <= entries@[b].offset || entries@[b].offset
                    + entries@[b].size <= entries@[a].offset),
        decreases n - i,
    {
        let mut j: usize = i + 1;
        while j < n
            invariant
                i < j <= n,
                n == entries@.len(),
                forall|b: int|
                    i < b < j && entries@[i as int].block == (#[trigger] entries@[b]).block ==> (
                    entries@[i as int].offset + entries@[i as int].size <= entries@[b].offset
                        || entries@[b].offset + entries@[b].size <= entries@[i as int].offset),
            decreases n - j,
        {
            let a = &entries[i];
            let b = &entries[j];
            if a.block == b.block {
                let disjoint = (a.offset as u64 + a.size as u64 <= b.offset as u64) || (
                b.offset as u64 + b.size as u64 <= a.offset as u64);
                if !disjoint {
                    return false;
                }
            }
            j = j + 1;
        }
        i = i + 1;
    }
    true
}

/// Fill one staging block: every entry of `block` is written at its offset
/// with the bytes its semantic requires, and every byte no entry covers is
/// zero.
pub fn pack_block(
    entries: &Vec<UniformBinding>,
    block: UniformBlock,
    block_size: usize,
    env: &UniformEnv,
) -> (r: Vec<u8>)
    requires
        forall|i: int|
            0 <= i < entries@.len() && (#[trigger] entries@[i]).block == block ==> spec_entry_fits(
                entries@[i],
                block_size as nat,
            ) && spec_env_covers(env@, entries@[i].semantic),
        spec_block_disjoint(entries@, block),
    ensures
        r@.len() == block_size,
        forall|i: int|
            0 <= i < entries@.len() && (#[trigger] entries@[i]).block == block ==> r@.subrange(
                entries@[i].offset as int,
                entries@[i].offset + entries@[i].size,
            ) == spec_uniform_bytes(entries@[i].semantic, env@),
        forall|p: int| 0 <= p < block_size && !spec_block_covers(entries@, block, p) ==> r@[p] == 0,
{
    let mut buf: Vec<u8> = Vec::new();
    let mut z: usize = 0;
    while z < block_size
        invariant
            z <= block_size,
            buf@.len() == z,
            forall|p: int| 0 <= p < z ==> buf@[p] == 0,
        decreases block_size - z,
    {
        buf.push(0);
        z = z + 1;
    }
    let n = entries.len();
    let mut i: usize = 0;
    while i < n
        invariant
            i <= n,
            n == entries@.len(),
            buf@.len() == block_size,
            forall|a: int|
                0 <= a < n && (#[trigger] entries@[a]).block == block ==> spec_entry_fits(
                    entries@[a],
                    block_size as nat,
                ) && spec_env_covers(env@, entries@[a].semantic),
            spec_block_disjoint(entries@, block),
            forall|a: int|
                0 <= a < i && (#[trigger] entries@[a]).block == block ==> buf@.subrange(
                    entries@[a].offset as int,
                    entries@[a].offset + entries@[a].size,
                ) == spec_uniform_bytes(entries@[a].semantic, env@),
            forall|p: int|
                0 <= p < block_size && !spec_block_covers_prefix(entries@, block, p, i as int)
                    ==> buf@[p] == 0,
        decreases n - i,
    {
        let e = &entries[i];
        let matches_block = e.block == block;
        if matches_block {
            let bytes = uniform_bytes(&e.semantic, env);
            let ghost before = buf@;
            splice(&mut buf, e.offset as usize, &bytes);
            proof {
                assert forall|a: int|
                    0 <= a < i && (#[trigger] entries@[a]).block == block implies buf@.subrange(
                    entries@[a].offset as int,
                    entries@[a].offset + entries@[a].size,
                ) == spec_uniform_bytes(entries@[a].semantic, env@) by {
                    assert(entries@[a].offset + entries@[a].size <= entries@[i as int].offset
                        || entries@[i as int].offset + entries@[i as int].size
                        <= entries@[a].offset);
                    assert(buf@.subrange(
                        entries@[a].offset as int,
                        entries@[a].offset + entries@[a].size,
                    ) =~= before.subrange(
                        entries@[a].offset as int,
                        entries@[a].offset + entries@[a].size,
                    ));
                }
                assert forall|p: int|
                    0 <= p < block_size && !spec_block_covers_prefix(
                        entries@,
                        block,
                        p,
                        i + 1,
                    ) implies buf@[p] == 0 by {
                    assert(!spec_block_covers_prefix(entries@, block, p, i as int));
                    assert(!(entries@[i as int].offset <= p < entries@[i as int].offset
                        + entries@[i as int].size));
                }
            }
        } else {
            proof {
                assert forall|p: int|
                    0 <= p < block_size && !spec_block_covers_prefix(
                        entries@,
                        block,
                        p,
                        i + 1,
                    ) implies buf@[p] == 0 by {
                    assert(!spec_block_covers_prefix(entries@, block, p, i as int));
                }
            }
        }
        i = i + 1;
    }
    buf
}

} // verus!
