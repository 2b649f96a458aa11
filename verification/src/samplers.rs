//! Sampler state interning.

use vstd::prelude::*;

verus! {

/// How sampling outside a texture's bounds behaves.
#[derive(Clone, Copy, Debug, PartialEq, Eq, Structural)]
pub enum WrapMode {
    ClampToBorder,
    ClampToEdge,
    Repeat,
    MirroredRepeat,
}

/// Minification and magnification filtering.
#[derive(Clone, Copy, Debug, PartialEq, Eq, Structural)]
pub enum FilterMode {
    Linear,
    Nearest,
}

/// Filtering between mip levels.
#[derive(Clone, Copy, Debug, PartialEq, Eq, Structural)]
pub enum MipFilterMode {
    Linear,
    Nearest,
    Unspecified,
}

pub open spec fn spec_wrap_index(w: WrapMode) -> nat {
    match w {
        WrapMode::ClampToBorder => 0,
        WrapMode::ClampToEdge => 1,
        WrapMode::Repeat => 2,
        WrapMode::MirroredRepeat => 3,
    }
}

pub open spec fn spec_filter_index(f: FilterMode) -> nat {
    match f {
        FilterMode::Linear => 0,
        FilterMode::Nearest => 1,
    }
}

pub open spec fn spec_mip_index(m: MipFilterMode) -> nat {
    match m {
        MipFilterMode::Linear => 0,
        MipFilterMode::Nearest => 1,
        MipFilterMode::Unspecified => 2,
    }
}

/// The canonical slot of a `(wrap, min, mag, mip)` sampler state among the
/// `4 * 2 * 2 * 3 = 48` possible states.
pub open spec fn spec_sampler_slot(
    wrap: WrapMode,
    min: FilterMode,
    mag: FilterMode,
    mip: MipFilterMode,
) -> nat {
    ((spec_wrap_index(wrap) * 2 + spec_filter_index(min)) * 2 + spec_filter_index(mag)) * 3
        + spec_mip_index(mip)
}

/// An interning cache of sampler handles, one per `(wrap, min, mag, mip)`
/// state. All handles are created with the set and never evicted, so a
/// lookup never allocates and equal keys always yield the same handle.
pub struct SamplerSet {
    handles: Vec<u64>,
}

impl SamplerSet {
    /// The handle stored for each canonical slot.
    pub closed spec fn view_handles(&self) -> Seq<u64> {
        self.handles@
    }

    pub open spec fn wf(&self) -> bool {
        self.view_handles().len() == 48
    }

    /// Intern the full set: slot `i` holds the caller-assigned handle base
    /// plus `i`, so distinct states get distinct handles.
    pub fn new(base: u64) -> (r: SamplerSet)
        requires
            base <= u64::MAX - 48,
        ensures
            r.wf(),
            forall|i: int| 0 <= i < 48 ==> r.view_handles()[i] == base + i,
    {
        let mut handles: Vec<u64> = Vec::new();
        let mut i: u64 = 0;
        while i < 48
            invariant
                base <= u64::MAX - 48,
                i <= 48,
                handles@.len() == i,
                forall|j: int| 0 <= j < i ==> handles@[j] == base + j,
            decreases 48 - i,
        {
            handles.push(base + i);
            i = i + 1;
        }
        SamplerSet { handles }
    }

    /// The interned handle for a sampler state. Equal keys always map to the
    /// same slot, so repeated lookups return the same handle.
    pub fn get(&self, wrap: WrapMode, min: FilterMode, mag: FilterMode, mip: MipFilterMode) -> (r:
        u64)
        requires
            self.wf(),
        ensures
            r == self.view_handles()[spec_sampler_slot(wrap, min, mag, mip) as int],
    {
        let wi: usize = match wrap {
            WrapMode::ClampToBorder => 0,
            WrapMode::ClampToEdge => 1,
            WrapMode::Repeat => 2,
            WrapMode::MirroredRepeat => 3,
        };
        let mini: usize = match min {
            FilterMode::Linear => 0,
            FilterMode::Nearest => 1,
        };
        let magi: usize = match mag {
            FilterMode::Linear => 0,
            FilterMode::Nearest => 1,
        };
        let mipi: usize = match mip {
            MipFilterMode::Linear => 0,
            MipFilterMode::Nearest => 1,
            MipFilterMode::Unspecified => 2,
        };
        let slot: usize = ((wi * 2 + mini) * 2 + magi) * 3 + mipi;
        self.handles[slot]
    }
}

/// The sampler cache is stable: a lookup returns a handle equal to the handle
/// returned by any earlier lookup with the same key, since neither the
/// interned handles nor the key's canonical slot can change.
pub proof fn lemma_sampler_cache_stable(
    s: SamplerSet,
    wrap: WrapMode,
    min: FilterMode,
    mag: FilterMode,
    mip: MipFilterMode,
    earlier: u64,
    later: u64,
)
    requires
        s.wf(),
        earlier == s.view_handles()[spec_sampler_slot(wrap, min, mag, mip) as int],
        later == s.view_handles()[spec_sampler_slot(wrap, min, mag, mip) as int],
    ensures
        later == earlier,
{
}

} // verus!
