//! The per-axis scale rules that size every pass's render target.

use vstd::prelude::*;
use crate::size::Size;

verus! {

/// A rational scale factor applied to one axis of a size.
#[derive(Clone, Copy, Debug, PartialEq, Eq, Structural)]
pub struct ScaleFactor {
    pub num: u32,
    pub den: u32,
}

impl ScaleFactor {
    /// A factor with a non-zero denominator.
    pub open spec fn wf(&self) -> bool {
        self.den >= 1
    }

    /// The factor that leaves an axis unchanged.
    pub fn one() -> (r: ScaleFactor)
        ensures
            r.wf(),
            r.num == 1 && r.den == 1,
    {
        ScaleFactor { num: 1, den: 1 }
    }

    /// A whole-number factor.
    pub fn whole(n: u32) -> (r: ScaleFactor)
        ensures
            r.wf(),
            r.num == n && r.den == 1,
    {
        ScaleFactor { num: n, den: 1 }
    }
}

/// How one axis of a pass's output size is derived.
#[derive(Clone, Copy, Debug, PartialEq, Eq, Structural)]
pub enum Scaling {
    /// A multiple of the same axis of the pass's input.
    Source(ScaleFactor),
    /// A multiple of the same axis of the final viewport.
    Viewport(ScaleFactor),
    /// A fixed number of texels.
    Absolute(u32),
}

impl Scaling {
    /// The factor, if any, has a non-zero denominator.
    pub open spec fn wf(&self) -> bool {
        match *self {
            Scaling::Source(f) => f.wf(),
            Scaling::Viewport(f) => f.wf(),
            Scaling::Absolute(_) => true,
        }
    }
}

/// A scale rule for both axes, applied independently.
#[derive(Clone, Copy, Debug, PartialEq, Eq, Structural)]
pub struct Scale2D {
    pub x: Scaling,
    pub y: Scaling,
}

impl Scale2D {
    pub open spec fn wf(&self) -> bool {
        self.x.wf() && self.y.wf()
    }

    /// The rule that copies the source size.
    pub fn source_identity() -> (r: Scale2D)
        ensures
            r.wf(),
            r.x == Scaling::Source(ScaleFactor { num: 1u32, den: 1u32 }),
            r.y == Scaling::Source(ScaleFactor { num: 1u32, den: 1u32 }),
    {
        Scale2D { x: Scaling::Source(ScaleFactor::one()), y: Scaling::Source(ScaleFactor::one()) }
    }
}

/// The unclamped output extent of one axis: `floor(axis * factor)` for the
/// relative rules, the given value for the absolute rule.
pub open spec fn spec_scale_axis_raw(rule: Scaling, source: nat, viewport: nat) -> nat {
    match rule {
        Scaling::Source(f) => (((source as int) * (f.num as int)) / (f.den as int)) as nat,
        Scaling::Viewport(f) => (((viewport as int) * (f.num as int)) / (f.den as int)) as nat,
        Scaling::Absolute(v) => v as nat,
    }
}

/// The output extent of one axis: the raw extent clamped below to 1 and
/// above to the largest representable extent.
pub open spec fn spec_scale_axis(rule: Scaling, source: nat, viewport: nat) -> nat {
    let raw = spec_scale_axis_raw(rule, source, viewport);
    if raw == 0 {
        1
    } else if raw > u32::MAX {
        u32::MAX as nat
    } else {
        raw
    }
}

/// The output size of a pass under `rule`, given the axis sizes of its input
/// and of the final viewport.
pub open spec fn spec_scale_size(rule: Scale2D, source: Size, viewport: Size) -> Size {
    Size {
        width: spec_scale_axis(rule.x, source.width as nat, viewport.width as nat) as u32,
        height: spec_scale_axis(rule.y, source.height as nat, viewport.height as nat) as u32,
    }
}

/// Apply one axis of a scale rule. The result is never zero: an empty or
/// zero-scaled extent is clamped up to a single texel.
pub fn scale_axis(rule: Scaling, source: u32, viewport: u32) -> (r: u32)
    requires
        rule.wf(),
    ensures
        r == spec_scale_axis(rule, source as nat, viewport as nat),
        r >= 1,
{
    let raw: u64 = match rule {
        Scaling::Source(f) => {
            proof {
                lemma_axis_product_fits(source as nat, f.num as nat);
            }
            (source as u64 * f.num as u64) / (f.den as u64)
        },
        Scaling::Viewport(f) => {
            proof {
                lemma_axis_product_fits(viewport as nat, f.num as nat);
            }
            (viewport as u64 * f.num as u64) / (f.den as u64)
        },
        Scaling::Absolute(v) => v as u64,
    };
    if raw == 0 {
        1
    } else if raw > u32::MAX as u64 {
        u32::MAX
    } else {
        raw as u32
    }
}

proof fn lemma_axis_product_fits(a: nat, b: nat)
    requires
        a <= u32::MAX,
        b <= u32::MAX,
    ensures
        a * b <= u32::MAX * u32::MAX,
        a * b <= u64::MAX,
{
    assert(a * b <= u32::MAX * u32::MAX) by (nonlinear_arith)
        requires
            a <= u32::MAX,
            b <= u32::MAX,
    ;
}

/// Apply a scale rule to both axes of a source size. This is the sizing step
/// of the framebuffer pool: every intermediate target gets the size this
/// returns, and both extents are at least 1.
pub fn scale_size(rule: Scale2D, source: Size, viewport: Size) -> (r: Size)
    requires
        rule.wf(),
    ensures
        r == spec_scale_size(rule, source, viewport),
        r.width >= 1 && r.height >= 1,
{
    Size {
        width: scale_axis(rule.x, source.width, viewport.width),
        height: scale_axis(rule.y, source.height, viewport.height),
    }
}

/// A zero factor, a zero source extent, or a zero absolute extent all clamp
/// up to a single texel rather than producing an empty target.
pub proof fn lemma_scale_clamps_to_one(rule: Scale2D, source: Size, viewport: Size)
    ensures
        spec_scale_size(rule, source, viewport).width >= 1,
        spec_scale_size(rule, source, viewport).height >= 1,
{
}

} // verus!
