//! Frame pacing for the compositor loop.
//!
//! Outputs with a hardware vsync source are paced by flip-complete events
//! alone: the loop renders for such an output whenever its presenter is idle
//! again and damage is pending. The software timer below paces only outputs
//! without a hardware vsync source (e.g. headless), at the configured
//! frame-rate cap, and never overrides hardware pacing when both exist.

use vstd::prelude::*;

verus! {

/// The software frame interval in milliseconds for a frame-rate cap;
/// a cap of zero means uncapped, i.e. no delay.
pub open spec fn spec_interval_ms(fps_limit: u32) -> int {
    if fps_limit == 0 {
        0
    } else {
        1000int / (fps_limit as int)
    }
}

/// Whether, under software pacing, a new frame is due at `now_ms` given the
/// last submission time.
pub open spec fn spec_software_due(now_ms: u64, last_submit_ms: u64, fps_limit: u32) -> bool {
    now_ms >= last_submit_ms + spec_interval_ms(fps_limit)
}

pub fn frame_interval_ms(fps_limit: u32) -> (r: u32)
    ensures
        r as int == spec_interval_ms(fps_limit),
{
    if fps_limit == 0 {
        0
    } else {
        1000 / fps_limit
    }
}

pub fn software_due(now_ms: u64, last_submit_ms: u64, fps_limit: u32) -> (r: bool)
    ensures
        r == spec_software_due(now_ms, last_submit_ms, fps_limit),
{
    let interval = frame_interval_ms(fps_limit);
    now_ms >= last_submit_ms && now_ms - last_submit_ms >= interval as u64
}

/// When the next software-paced frame falls due, for bounding the loop's
/// wait; saturates at the largest representable time.
pub fn next_deadline_ms(last_submit_ms: u64, fps_limit: u32) -> (r: u64)
    ensures
        r as int == if last_submit_ms + spec_interval_ms(fps_limit) <= u64::MAX {
            last_submit_ms + spec_interval_ms(fps_limit)
        } else {
            u64::MAX as int
        },
{
    let interval = frame_interval_ms(fps_limit) as u64;
    if last_submit_ms <= u64::MAX - interval {
        last_submit_ms + interval
    } else {
        u64::MAX
    }
}

} // verus!
