//! Construction-time and per-frame options, and their versioned
//! foreign-interface layouts.

use vstd::prelude::*;
use crate::version::GlVersion;

verus! {

/// Options fixed at chain construction.
#[derive(Clone, Copy, Debug, PartialEq, Eq, Structural)]
pub struct FilterChainOptions {
    /// Override every pass's mipmap request to off.
    pub force_no_mipmaps: bool,
    /// Prefer the native HLSL pipeline over the intermediate form.
    pub force_hlsl_pipeline: bool,
    /// Skip any persistent pipeline-object cache.
    pub disable_cache: bool,
    /// Requested shading-language version.
    pub glsl_version: GlVersion,
    /// Prefer direct-state-access paths.
    pub use_dsa: bool,
}

impl FilterChainOptions {
    /// The options used when the caller passes none.
    pub fn defaults() -> (r: FilterChainOptions)
        ensures
            !r.force_no_mipmaps,
            !r.force_hlsl_pipeline,
            !r.disable_cache,
            !r.use_dsa,
            r.glsl_version == GlVersion::V3_30,
    {
        FilterChainOptions {
            force_no_mipmaps: false,
            force_hlsl_pipeline: false,
            disable_cache: false,
            glsl_version: GlVersion::V3_30,
            use_dsa: false,
        }
    }
}

/// Options passed with each frame.
#[derive(Clone, Copy, Debug, PartialEq, Eq, Structural)]
pub struct FrameOptions {
    /// Zero-clear every history slot and feedback source before the passes run.
    pub clear_history: bool,
    /// Direction of playback; any value other than a negative one means forward.
    pub frame_direction: i32,
}

impl FrameOptions {
    /// The options used when the caller passes none.
    pub fn defaults() -> (r: FrameOptions)
        ensures
            !r.clear_history,
            r.frame_direction == 1,
    {
        FrameOptions { clear_history: false, frame_direction: 1 }
    }
}

/// The sign a frame-direction request collapses to: every negative request
/// means backward (`-1`) and every other request, zero included, means
/// forward (`+1`).
pub open spec fn spec_normalized_direction(d: i32) -> i32 {
    if d < 0 {
        -1i32
    } else {
        1i32
    }
}

/// Normalize a frame-direction request to `-1` or `+1`.
pub fn normalize_frame_direction(d: i32) -> (r: i32)
    ensures
        r == spec_normalized_direction(d),
{
    if d < 0 {
        -1
    } else {
        1
    }
}

/// The frame options of the versioned foreign-interface layout. A `version`
/// below 1 predates every optional field, so such a record contributes only
/// defaults.
#[derive(Clone, Copy, Debug, PartialEq, Eq, Structural)]
#[allow(non_camel_case_types)]
pub struct frame_d3d12_opt_t {
    /// Interface version the caller was built against.
    pub version: usize,
    pub clear_history: bool,
    pub frame_direction: i32,
}

impl frame_d3d12_opt_t {
    /// The frame options this record selects: fields the caller's interface
    /// version does not know about keep their defaults.
    pub fn to_options(&self) -> (r: FrameOptions)
        ensures
            r.clear_history == self.clear_history,
            r.frame_direction == self.frame_direction,
    {
        FrameOptions { clear_history: self.clear_history, frame_direction: self.frame_direction }
    }
}

/// The construction options of the versioned foreign-interface layout.
#[derive(Clone, Copy, Debug, PartialEq, Eq, Structural)]
#[allow(non_camel_case_types)]
pub struct filter_chain_d3d12_opt_t {
    /// Interface version the caller was built against.
    pub version: usize,
    pub force_hlsl_pipeline: bool,
    pub force_no_mipmaps: bool,
}

impl filter_chain_d3d12_opt_t {
    /// The construction options this record selects; options the
    /// foreign-interface layout does not carry keep their defaults.
    pub fn to_options(&self) -> (r: FilterChainOptions)
        ensures
            r.force_no_mipmaps == self.force_no_mipmaps,
            r.force_hlsl_pipeline == self.force_hlsl_pipeline,
            !r.disable_cache,
            !r.use_dsa,
            r.glsl_version == GlVersion::V3_30,
    {
        let mut r = FilterChainOptions::defaults();
        r.force_no_mipmaps = self.force_no_mipmaps;
        r.force_hlsl_pipeline = self.force_hlsl_pipeline;
        r
    }
}

} // verus!
