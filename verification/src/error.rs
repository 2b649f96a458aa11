//! The error kinds every fallible operation reports.

use vstd::prelude::*;

verus! {

/// Why chain construction or a frame failed.
#[derive(Clone, Copy, Debug, PartialEq, Eq, Structural)]
pub enum FilterChainError {
    /// A required handle was missing, a string malformed, or a length zero.
    InvalidParameter,
    /// A runtime parameter name the preset does not expose.
    UnknownParameter,
    /// A shader failed to cross-compile.
    ShaderCompile,
    /// Reflection referenced a semantic the plan cannot satisfy.
    InvalidBinding,
    /// An image or buffer could not be allocated.
    AllocationFailed,
    /// The device reported a lost or removed state.
    DeviceLost,
    /// A lookup-texture or cache file could not be read or written.
    Io,
}

/// The description each error kind carries.
pub open spec fn spec_message(e: FilterChainError) -> Seq<char> {
    match e {
        FilterChainError::InvalidParameter => "invalid parameter"@,
        FilterChainError::UnknownParameter => "unknown runtime parameter"@,
        FilterChainError::ShaderCompile => "shader failed to compile"@,
        FilterChainError::InvalidBinding => "shader requested an unavailable semantic"@,
        FilterChainError::AllocationFailed => "resource allocation failed"@,
        FilterChainError::DeviceLost => "device lost"@,
        FilterChainError::Io => "file could not be read or written"@,
    }
}

impl FilterChainError {
    /// A stable human-readable description of the error kind.
    pub fn message(&self) -> (r: String)
        ensures
            r@ == spec_message(*self),
    {
        match *self {
            FilterChainError::InvalidParameter => "invalid parameter".to_owned(),
            FilterChainError::UnknownParameter => "unknown runtime parameter".to_owned(),
            FilterChainError::ShaderCompile => "shader failed to compile".to_owned(),
            FilterChainError::InvalidBinding => "shader requested an unavailable semantic".to_owned(),
            FilterChainError::AllocationFailed => "resource allocation failed".to_owned(),
            FilterChainError::DeviceLost => "device lost".to_owned(),
            FilterChainError::Io => "file could not be read or written".to_owned(),
        }
    }
}

} // verus!
