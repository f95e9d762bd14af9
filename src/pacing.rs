//! Frame pacing: how long to wait after a frame, or by how much it ran late.
use vstd::prelude::*;

verus! {

/// Screen size, target frame rate and field of view (in degrees).
#[derive(Debug, Clone, Copy, PartialEq, Eq, Structural)]
pub struct Config {
    pub width: i32,
    pub height: i32,
    pub fps: i32,
    pub fov: i32,
}

impl Config {
    /// A 640 by 480 screen at 60 frames per second with a 60 degree view.
    pub fn standard() -> (r: Config)
        ensures
            r == (Config { width: 640, height: 480, fps: 60, fov: 60 }),
    {
        Config { width: 640, height: 480, fps: 60, fov: 60 }
    }
}

/// What to do at the end of a frame.
#[derive(Debug, Clone, Copy, PartialEq, Eq, Structural)]
pub enum FramePacing {
    /// The frame finished early: wait this many milliseconds.
    Sleep(u64),
    /// The frame overran its budget by this many milliseconds.
    Missed(u64),
}

/// Milliseconds available to one frame at `fps` frames per second.
pub open spec fn frame_budget(fps: int) -> int {
    1000int / fps
}

/// Paces a frame that took `elapsed_ms` milliseconds at `fps` frames per second.
pub fn frame_pacing(fps: u32, elapsed_ms: u64) -> (r: FramePacing)
    requires
        fps >= 1,
    ensures
        elapsed_ms <= frame_budget(fps as int) ==> r == FramePacing::Sleep(
            (frame_budget(fps as int) - elapsed_ms) as u64,
        ),
        elapsed_ms > frame_budget(fps as int) ==> r == FramePacing::Missed(
            (elapsed_ms - frame_budget(fps as int)) as u64,
        ),
{
    let budget: u64 = 1000 / (fps as u64);
    if elapsed_ms <= budget {
        FramePacing::Sleep(budget - elapsed_ms)
    } else {
        FramePacing::Missed(elapsed_ms - budget)
    }
}

} // verus!
