//! The renderer's surface bookkeeping: its size across window resizes, and
//! what to do with each outcome of asking the surface for the next texture.
use vstd::prelude::*;

verus! {

/// The size the surface is configured with.
#[derive(Debug, Clone, Copy, PartialEq, Eq, Structural)]
pub struct SurfaceExtent {
    pub width: u32,
    pub height: u32,
}

impl SurfaceExtent {
    /// Takes the new window size; a size of zero in either direction (a
    /// minimised window) is ignored. Says whether the surface must be
    /// configured again.
    pub fn resize(&mut self, width: u32, height: u32) -> (reconfigure: bool)
        ensures
            reconfigure == (width != 0 && height != 0),
            reconfigure ==> *final(self) == (SurfaceExtent { width, height }),
            !reconfigure ==> *final(self) == *old(self),
    {
        if width == 0 || height == 0 {
            return false;
        }
        self.width = width;
        self.height = height;
        true
    }
}

/// The outcome of asking the surface for its next texture.
#[derive(Debug, Clone, Copy, PartialEq, Eq, Structural)]
pub enum SurfaceStatus {
    /// A texture, matching the surface.
    Success,
    /// A texture, but the surface should be configured again.
    Suboptimal,
    /// No texture in time.
    Timeout,
    /// No texture: the window is hidden.
    Occluded,
    /// No texture: the configuration is out of date.
    Outdated,
    /// No texture: the surface is lost.
    Lost,
    /// No texture: a validation error was raised.
    Validation,
}

/// What to do for one frame: configure the surface again first, and/or draw.
#[derive(Debug, Clone, Copy, PartialEq, Eq, Structural)]
pub struct FramePlan {
    pub reconfigure: bool,
    pub draw: bool,
}

/// What a frame does for each outcome: draw when a texture came (`Success`,
/// `Suboptimal`); configure the surface again when it is suboptimal, outdated
/// or lost; otherwise skip the frame.
pub open spec fn spec_plan_frame(status: SurfaceStatus) -> FramePlan {
    FramePlan {
        reconfigure: status == SurfaceStatus::Suboptimal || status == SurfaceStatus::Outdated
            || status == SurfaceStatus::Lost,
        draw: status == SurfaceStatus::Success || status == SurfaceStatus::Suboptimal,
    }
}

/// Decides what a frame does for the outcome `status`.
pub fn plan_frame(status: SurfaceStatus) -> (plan: FramePlan)
    ensures
        plan == spec_plan_frame(status),
{
    match status {
        SurfaceStatus::Success => FramePlan { reconfigure: false, draw: true },
        SurfaceStatus::Suboptimal => FramePlan { reconfigure: true, draw: true },
        SurfaceStatus::Outdated | SurfaceStatus::Lost => FramePlan {
            reconfigure: true,
            draw: false,
        },
        SurfaceStatus::Timeout | SurfaceStatus::Occluded | SurfaceStatus::Validation => FramePlan {
            reconfigure: false,
            draw: false,
        },
    }
}

} // verus!
