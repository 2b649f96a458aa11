//! The parsed preset a chain is compiled from.

use vstd::prelude::*;
use crate::samplers::FilterMode;
use crate::samplers::WrapMode;
use crate::scaling::Scale2D;

verus! {

/// The pixel formats the chain plans with. The device may promote a nominal
/// format to a supported neighbour; the plan records the nominal one.
#[derive(Clone, Copy, Debug, PartialEq, Eq, Structural)]
pub enum ImageFormat {
    Unknown,
    R8G8B8A8Unorm,
    R8G8B8A8Srgb,
    B8G8R8A8Unorm,
    A2B10G10R10Unorm,
    R16G16B16A16Norm,
    R32G32B32A32Word,
}

/// One pass of a preset.
#[derive(Clone, Debug)]
pub struct PassConfig {
    /// How the pass's output size derives from its input and the viewport.
    pub scaling: Scale2D,
    /// Nominal output format.
    pub format: ImageFormat,
    /// Wrap mode used when later passes sample this output.
    pub wrap_mode: WrapMode,
    /// Filter used when later passes sample this output.
    pub filter: FilterMode,
    /// Whether a mip chain is kept on the output.
    pub mipmap: bool,
    /// A name under which later passes may sample this output.
    pub alias: Option<String>,
    /// Modulus applied to the frame index for `FrameCount`; zero keeps the
    /// raw index.
    pub frame_count_mod: u32,
}

/// One lookup texture of a preset. Its pixels are loaded outside the chain
/// and handed in once at construction.
#[derive(Clone, Debug)]
pub struct TextureConfig {
    /// The name under which shaders sample it.
    pub name: String,
    pub filter: FilterMode,
    pub wrap_mode: WrapMode,
    /// Whether a mip chain is generated for it at load time.
    pub mipmap: bool,
}

/// One user parameter of a preset, with its default value word.
#[derive(Clone, Debug)]
pub struct ParameterConfig {
    pub name: String,
    /// Default value, as a 32-bit scalar word.
    pub initial: u32,
}

/// A parsed preset: the chain's immutable description.
#[derive(Clone, Debug)]
pub struct Preset {
    pub passes: Vec<PassConfig>,
    pub textures: Vec<TextureConfig>,
    pub parameters: Vec<ParameterConfig>,
}

} // verus!
