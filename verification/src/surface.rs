//! Dimension bookkeeping for the presentable surface and the feedback
//! texture.
//!
//! The draw pipeline renders into the visible surface and an off-screen copy
//! target, then copies the latter into a feedback texture that the next frame
//! samples. Both per-frame textures and the feedback texture must always be
//! sized to the current surface; this module tracks those dimensions, so a
//! resize and the per-frame reallocation keep them in step.

use vstd::prelude::*;

verus! {

/// The dimensions the GPU state is currently configured for: the surface
/// size, and the size the feedback texture is to have — the draw that
/// follows allocates it (and the per-frame copy target) with exactly these
/// dimensions.
#[derive(Copy, Clone, Debug, PartialEq, Eq, Structural)]
pub struct FrameGeometry {
    pub surface_width: u32,
    pub surface_height: u32,
    pub feedback_width: u32,
    pub feedback_height: u32,
}

impl FrameGeometry {
    /// The geometry `self` ends in after a resize to `width` x `height`; it
    /// depends on the new dimensions alone.
    pub open spec fn resized(self, width: u32, height: u32) -> FrameGeometry {
        FrameGeometry::with_dimensions(width, height)
    }

    /// The geometry after configuring everything for `width` x `height`.
    pub open spec fn with_dimensions(width: u32, height: u32) -> FrameGeometry {
        FrameGeometry {
            surface_width: width,
            surface_height: height,
            feedback_width: width,
            feedback_height: height,
        }
    }

    /// The feedback texture is sized to the surface it is sampled into.
    pub open spec fn feedback_matches_surface(&self) -> bool {
        self.feedback_width == self.surface_width && self.feedback_height == self.surface_height
    }

    pub fn new(width: u32, height: u32) -> (g: FrameGeometry)
        ensures
            g == FrameGeometry::with_dimensions(width, height),
            g.feedback_matches_surface(),
    {
        FrameGeometry {
            surface_width: width,
            surface_height: height,
            feedback_width: width,
            feedback_height: height,
        }
    }

    /// Adopts new surface dimensions; the next draw reallocates the
    /// feedback texture to match. The result depends on the new dimensions
    /// alone, so repeating a resize changes nothing further.
    pub fn resize(&mut self, width: u32, height: u32)
        ensures
            *final(self) == old(self).resized(width, height),
            final(self).feedback_matches_surface(),
    {
        self.surface_width = width;
        self.surface_height = height;
        self.feedback_width = width;
        self.feedback_height = height;
    }

    /// Records one frame's feedback-texture reallocation: this frame's copy
    /// target and the fresh feedback texture it is copied into are both
    /// sized to the current surface.
    pub fn record_frame(&mut self)
        ensures
            final(self).surface_width == old(self).surface_width,
            final(self).surface_height == old(self).surface_height,
            final(self).feedback_matches_surface(),
    {
        self.feedback_width = self.surface_width;
        self.feedback_height = self.surface_height;
    }

    /// The extent to allocate this frame's render targets with.
    pub fn frame_extent(&self) -> (e: (u32, u32))
        ensures
            e.0 == self.surface_width,
            e.1 == self.surface_height,
    {
        (self.surface_width, self.surface_height)
    }
}

/// Resizing is idempotent: issuing the same resize twice leaves exactly the
/// surface configuration and feedback dimensions that issuing it once does,
/// whatever state the geometry starts from.
pub proof fn lemma_resize_idempotent(g: FrameGeometry, width: u32, height: u32)
    ensures
        g.resized(width, height).resized(width, height) == g.resized(width, height),
{
}

} // verus!
