//! A verified core for a multi-pass post-processing filter chain.
//!
//! The crate models the runtime that sits between a declarative shader
//! preset and a GPU: per-pass output sizing, history and feedback rings,
//! sampler interning, reflection-driven binding tables, uniform packing,
//! and the per-frame command recording that ties them together.
//! GPU work itself is recorded as commands for the caller to execute.

mod binding;
mod chain;
mod encode;
mod error;
mod fbpool;
mod options;
mod packer;
mod params;
mod preset;
mod ring;
mod samplers;
mod scaling;
mod semantics;
mod size;
mod version;

pub use binding::bind_reflection;
pub use binding::BindingContext;
pub use binding::BindingTable;
pub use binding::PassReflection;
pub use binding::TextureBinding;
pub use binding::TextureSlotReflection;
pub use binding::UniformBinding;
pub use binding::UniformBlock;
pub use binding::UniformMemberReflection;
pub use chain::BoundTexture;
pub use chain::FilterChain;
pub use chain::FrameCmd;
pub use chain::ImageRef;
pub use chain::LutPlan;
pub use chain::PassPlan;
pub use chain::ResourceState;
pub use chain::Viewport;
pub use encode::f32_bits_of_u32;
pub use encode::f32_recip_bits_of_u32;
pub use error::FilterChainError;
pub use fbpool::FormatSupportRequest;
pub use fbpool::ImageAllocator;
pub use fbpool::OwnedImage;
pub use fbpool::support_request;
pub use options::filter_chain_d3d12_opt_t;
pub use options::FilterChainOptions;
pub use options::frame_d3d12_opt_t;
pub use options::FrameOptions;
pub use options::normalize_frame_direction;
pub use packer::check_blocks_disjoint;
pub use packer::pack_block;
pub use packer::uniform_bytes;
pub use packer::UniformEnv;
pub use params::ParameterError;
pub use params::RuntimeParameters;
pub use preset::ImageFormat;
pub use preset::ParameterConfig;
pub use preset::PassConfig;
pub use preset::Preset;
pub use preset::TextureConfig;
pub use ring::InlineRingBuffer;
pub use ring::RingBuffer;
pub use samplers::FilterMode;
pub use samplers::MipFilterMode;
pub use samplers::SamplerSet;
pub use samplers::WrapMode;
pub use scaling::Scale2D;
pub use scaling::scale_axis;
pub use scaling::scale_size;
pub use scaling::ScaleFactor;
pub use scaling::Scaling;
pub use semantics::Alias;
pub use semantics::builtin_texture;
pub use semantics::resolve_texture;
pub use semantics::resolve_uniform;
pub use semantics::TextureSemantic;
pub use semantics::UniformSemantic;
pub use size::calc_miplevel;
pub use size::Size;
pub use version::gl_u16_to_version;
pub use version::gl_version_from_parts;
pub use version::GlVersion;
