//! Shading-language version selection.

use vstd::prelude::*;

verus! {

/// A GLSL shading-language version accepted by the runtime's GL backend.
#[derive(Clone, Copy, Debug, PartialEq, Eq, Structural)]
pub enum GlVersion {
    V1_30,
    V1_40,
    V1_50,
    V3_30,
    V4_00,
    V4_10,
    V4_20,
    V4_30,
    V4_40,
    V4_50,
    V4_60,
}

/// The shading-language version requested by a three-digit hint such as `330`
/// or `460`; unknown hints fall back to `V1_50`.
pub open spec fn spec_gl_u16_to_version(version: u16) -> GlVersion {
    match version {
        300u16 => GlVersion::V1_30,
        310u16 => GlVersion::V1_40,
        320u16 => GlVersion::V1_50,
        330u16 => GlVersion::V3_30,
        400u16 => GlVersion::V4_00,
        410u16 => GlVersion::V4_10,
        420u16 => GlVersion::V4_20,
        430u16 => GlVersion::V4_30,
        440u16 => GlVersion::V4_40,
        450u16 => GlVersion::V4_50,
        460u16 => GlVersion::V4_60,
        _ => GlVersion::V1_50,
    }
}

/// Map a numeric GLSL version hint to the version it selects.
pub fn gl_u16_to_version(version: u16) -> (r: GlVersion)
    ensures
        r == spec_gl_u16_to_version(version),
{
    match version {
        300 => GlVersion::V1_30,
        310 => GlVersion::V1_40,
        320 => GlVersion::V1_50,
        330 => GlVersion::V3_30,
        400 => GlVersion::V4_00,
        410 => GlVersion::V4_10,
        420 => GlVersion::V4_20,
        430 => GlVersion::V4_30,
        440 => GlVersion::V4_40,
        450 => GlVersion::V4_50,
        460 => GlVersion::V4_60,
        _ => GlVersion::V1_50,
    }
}

/// The shading-language version implied by a context's reported major and
/// minor version; unknown pairs fall back to `V1_50`.
pub open spec fn spec_gl_version_from_parts(major: i32, minor: i32) -> GlVersion {
    if major == 3 {
        match minor {
            3i32 => GlVersion::V3_30,
            2i32 => GlVersion::V1_50,
            1i32 => GlVersion::V1_40,
            0i32 => GlVersion::V1_30,
            _ => GlVersion::V1_50,
        }
    } else if major == 4 {
        match minor {
            6i32 => GlVersion::V4_60,
            5i32 => GlVersion::V4_50,
            4i32 => GlVersion::V4_40,
            3i32 => GlVersion::V4_30,
            2i32 => GlVersion::V4_20,
            1i32 => GlVersion::V4_10,
            0i32 => GlVersion::V4_00,
            _ => GlVersion::V1_50,
        }
    } else {
        GlVersion::V1_50
    }
}

/// Map a context's reported (major, minor) version pair to the
/// shading-language version it selects. The caller queries the pair from the
/// context; this decides what it means.
pub fn gl_version_from_parts(major: i32, minor: i32) -> (r: GlVersion)
    ensures
        r == spec_gl_version_from_parts(major, minor),
{
    match major {
        3 => match minor {
            3 => GlVersion::V3_30,
            2 => GlVersion::V1_50,
            1 => GlVersion::V1_40,
            0 => GlVersion::V1_30,
            _ => GlVersion::V1_50,
        },
        4 => match minor {
            6 => GlVersion::V4_60,
            5 => GlVersion::V4_50,
            4 => GlVersion::V4_40,
            3 => GlVersion::V4_30,
            2 => GlVersion::V4_20,
            1 => GlVersion::V4_10,
            0 => GlVersion::V4_00,
            _ => GlVersion::V1_50,
        },
        _ => GlVersion::V1_50,
    }
}

} // verus!
