//! Pooled render targets: descriptors, lazy re-creation, and identity
//! management.

use vstd::prelude::*;
use crate::error::FilterChainError;
use crate::preset::ImageFormat;
use crate::scaling::spec_scale_size;
use crate::scaling::scale_size;
use crate::scaling::Scale2D;
use crate::size::spec_miplevels;
use crate::size::Size;

verus! {

/// The capabilities an image's device format must support, as the planner
/// requests them: sampling and rendering always, mip generation and storage
/// access only when a mip chain is kept.
#[derive(Clone, Copy, Debug, PartialEq, Eq, Structural)]
pub struct FormatSupportRequest {
    pub format: ImageFormat,
    pub sample: bool,
    pub render_target: bool,
    pub mip: bool,
    pub storage: bool,
}

/// The support request for an image of format `format`.
pub open spec fn spec_support_request(format: ImageFormat, mipmap: bool) -> FormatSupportRequest {
    FormatSupportRequest {
        format,
        sample: true,
        render_target: true,
        mip: mipmap,
        storage: mipmap,
    }
}

/// What the planner asks the device to support for an image.
pub fn support_request(format: ImageFormat, mipmap: bool) -> (r: FormatSupportRequest)
    ensures
        r == spec_support_request(format, mipmap),
{
    FormatSupportRequest { format, sample: true, render_target: true, mip: mipmap, storage: mipmap }
}

/// Hands out identities for chain-owned images. A re-created image always
/// gets an identity no earlier image ever had, so stale references can
/// never denote a new image.
#[derive(Clone, Copy, Debug, PartialEq, Eq, Structural)]
pub struct ImageAllocator {
    pub next: u64,
}

impl ImageAllocator {
    pub fn new() -> (r: ImageAllocator)
        ensures
            r.next == 1,
    {
        ImageAllocator { next: 1 }
    }
}

/// A chain-owned render target: an identity in the recorded command stream
/// plus the descriptor it was created with.
#[derive(Clone, Copy, Debug, PartialEq, Eq, Structural)]
pub struct OwnedImage {
    /// Identity within the recorded command stream.
    pub id: u64,
    pub size: Size,
    pub format: ImageFormat,
    /// Allocated mip levels: 1, or the full chain for the size.
    pub max_mipmap: u32,
}

impl OwnedImage {
    /// Both extents positive, and the mip chain either absent or full.
    pub open spec fn wf(&self) -> bool {
        &&& self.size.width >= 1
        &&& self.size.height >= 1
        &&& self.max_mipmap == 1 || self.max_mipmap == spec_miplevels(self.size)
        &&& self.max_mipmap >= 1
    }

    /// Whether the image keeps a mip chain.
    pub open spec fn mipped(&self) -> bool {
        self.max_mipmap != 1
    }

    /// Create an image: the mip level count is the full chain when `mipmap`
    /// is set and 1 otherwise, and the identity is fresh. Fails with
    /// `AllocationFailed` only when the identity space is exhausted.
    pub fn new(alloc: &mut ImageAllocator, size: Size, format: ImageFormat, mipmap: bool) -> (r:
        Result<OwnedImage, FilterChainError>)
        requires
            size.width >= 1,
            size.height >= 1,
        ensures
            match r {
                Ok(img) => {
                    &&& img.wf()
                    &&& img.id == old(alloc).next
                    &&& img.size == size
                    &&& img.format == format
                    &&& img.max_mipmap == if mipmap {
                        spec_miplevels(size)
                    } else {
                        1nat
                    }
                    &&& final(alloc).next == old(alloc).next + 1
                },
                Err(e) => {
                    &&& e == FilterChainError::AllocationFailed
                    &&& *final(alloc) == *old(alloc)
                    &&& old(alloc).next == u64::MAX
                },
            },
    {
        if alloc.next == u64::MAX {
            return Err(FilterChainError::AllocationFailed);
        }
        let miplevels: u32 = if mipmap {
            crate::size::calc_miplevel(size)
        } else {
            1
        };
        proof {
            crate::size::lemma_bit_length_interval(
                if size.width >= size.height {
                    size.width as nat
                } else {
                    size.height as nat
                },
            );
        }
        let id = alloc.next;
        alloc.next = alloc.next + 1;
        Ok(OwnedImage { id, size, format, max_mipmap: miplevels })
    }

    /// Whether the image already matches a requested descriptor, so that
    /// `scale` keeps it instead of re-creating it.
    pub open spec fn matches(&self, size: Size, format: ImageFormat, mipmap: bool) -> bool {
        &&& self.size == size
        &&& self.format == format
        &&& !(mipmap && self.max_mipmap == 1)
        &&& !(!mipmap && self.max_mipmap != 1)
    }

    /// Whether the image already matches a requested descriptor.
    pub fn matches_exec(&self, size: Size, format: ImageFormat, mipmap: bool) -> (r: bool)
        ensures
            r == self.matches(size, format, mipmap),
    {
        self.size.width == size.width && self.size.height == size.height && self.format == format
            && !(mipmap && self.max_mipmap == 1) && !(!mipmap && self.max_mipmap != 1)
    }

    /// Re-create the image if its descriptor differs from the requested
    /// one; a matching image is kept untouched, identity included.
    pub fn ensure_exact(
        &mut self,
        alloc: &mut ImageAllocator,
        size: Size,
        format: ImageFormat,
        mipmap: bool,
    ) -> (r: Result<(), FilterChainError>)
        requires
            old(self).wf(),
            size.width >= 1,
            size.height >= 1,
        ensures
            match r {
                Ok(u) => {
                    &&& final(self).wf()
                    &&& final(self).size == size
                    &&& final(self).format == format
                    &&& final(self).mipped() == (mipmap && spec_miplevels(size) > 1)
                    &&& (old(self).matches(size, format, mipmap) ==> *final(self) == *old(self)
                        && *final(alloc) == *old(alloc))
                    &&& (!old(self).matches(size, format, mipmap) ==> final(self).id == old(
                        alloc,
                    ).next && final(alloc).next == old(alloc).next + 1)
                },
                Err(e) => {
                    &&& e == FilterChainError::AllocationFailed
                    &&& *final(self) == *old(self)
                    &&& *final(alloc) == *old(alloc)
                    &&& old(alloc).next == u64::MAX
                },
            },
    {
        let needs_realloc = !(self.size.width == size.width && self.size.height == size.height)
            || (mipmap && self.max_mipmap == 1) || (!mipmap && self.max_mipmap != 1) || !(
        self.format == format);
        if needs_realloc {
            match OwnedImage::new(alloc, size, format, mipmap) {
                Ok(fresh) => {
                    *self = fresh;
                },
                Err(e) => {
                    return Err(e);
                },
            }
        }
        Ok(())
    }

    /// Apply the pass's scale rule and re-create the image if the computed
    /// descriptor differs from the current one. Returns the computed size.
    /// A kept image is returned untouched, identity included; a re-created
    /// one carries a fresh identity, so references to the old image are
    /// invalidated.
    pub fn scale(
        &mut self,
        alloc: &mut ImageAllocator,
        scaling: Scale2D,
        format: ImageFormat,
        viewport_size: &Size,
        source_size: &Size,
        mipmap: bool,
    ) -> (r: Result<Size, FilterChainError>)
        requires
            scaling.wf(),
            old(self).wf(),
        ensures
            final(self).wf() || *final(self) == *old(self),
            match r {
                Ok(sz) => {
                    &&& sz == spec_scale_size(scaling, *source_size, *viewport_size)
                    &&& final(self).wf()
                    &&& final(self).size == sz
                    &&& final(self).format == format
                    &&& final(self).mipped() == (mipmap && spec_miplevels(sz) > 1)
                    &&& (old(self).matches(sz, format, mipmap) ==> *final(self) == *old(self)
                        && *final(alloc) == *old(alloc))
                    &&& (!old(self).matches(sz, format, mipmap) ==> final(self).id == old(
                        alloc,
                    ).next && final(alloc).next == old(alloc).next + 1)
                },
                Err(e) => {
                    &&& e == FilterChainError::AllocationFailed
                    &&& *final(self) == *old(self)
                    &&& *final(alloc) == *old(alloc)
                    &&& old(alloc).next == u64::MAX
                },
            },
    {
        let size = scale_size(scaling, *source_size, *viewport_size);
        let needs_realloc = !(self.size.width == size.width && self.size.height == size.height)
            || (mipmap && self.max_mipmap == 1) || (!mipmap && self.max_mipmap != 1) || !(
        self.format == format);
        if needs_realloc {
            match OwnedImage::new(alloc, size, format, mipmap) {
                Ok(fresh) => {
                    *self = fresh;
                },
                Err(e) => {
                    return Err(e);
                },
            }
        }
        Ok(size)
    }
}

} // verus!
