//! When the recording overlay is shown, and which status updates it obeys.

use vstd::prelude::*;
use crate::workflow::WorkflowMode;

verus! {

/// The overlay is up in every phase but idle.
pub fn overlay_should_show(mode: &WorkflowMode) -> (r: bool)
    ensures
        r == (*mode != WorkflowMode::Idle),
{
    match mode {
        WorkflowMode::Starting | WorkflowMode::Recording | WorkflowMode::Processing | WorkflowMode::Error => true,
        WorkflowMode::Idle => false,
    }
}

/// A show request is sent when the overlay is hidden, and always when a new
/// recording starts (so that it moves to the active monitor).
pub fn should_request_overlay_show(mode: &WorkflowMode, is_visible: bool) -> (r: bool)
    ensures
        r == (*mode == WorkflowMode::Starting || !is_visible),
{
    *mode == WorkflowMode::Starting || !is_visible
}

/// The newest status revision the overlay has acted on.
#[derive(Debug)]
pub struct OverlayRevision {
    pub latest: u64,
}

impl Default for OverlayRevision {
    fn default() -> (r: Self)
        ensures
            r.latest == 0,
    {
        OverlayRevision { latest: 0 }
    }
}

impl OverlayRevision {
    /// Records `revision` and says whether it is at least as new as every
    /// revision seen before; stale updates are ignored.
    pub fn claim_overlay_revision(&mut self, revision: u64) -> (r: bool)
        ensures
            r == (revision >= old(self).latest),
            final(self).latest == (if revision > old(self).latest { revision } else { old(self).latest }),
    {
        let previous = self.latest;
        if revision > previous {
            self.latest = revision;
        }
        revision >= previous
    }

    /// Whether `revision` is still the newest one claimed.
    pub fn overlay_revision_is_current(&self, revision: u64) -> (r: bool)
        ensures
            r == (self.latest == revision),
    {
        self.latest == revision
    }
}

/// The revision kept never goes down, and after a successful claim the
/// claimed revision is current.
pub proof fn law_claim_keeps_newest(before: u64, revision: u64, after: u64)
    requires
        after == (if revision > before { revision } else { before }),
    ensures
        after >= before,
        revision >= before ==> after == revision,
{
}

/// AppKit's `NSWindowCollectionBehavior` flags that the overlay panel uses.
pub const MOVE_TO_ACTIVE_SPACE: u64 = 0x2;
pub const TRANSIENT: u64 = 0x8;
pub const IGNORES_CYCLE: u64 = 0x40;
pub const FULL_SCREEN_AUXILIARY: u64 = 0x100;
pub const CAN_JOIN_ALL_APPLICATIONS: u64 = 0x4_0000;

/// How the overlay panel behaves across Spaces: it moves to the active Space,
/// may stand beside a full-screen window, is transient and stays out of the
/// window cycle; where the system allows it (macOS 13 on), it also joins the
/// full-screen Space of every application.
pub fn overlay_collection_behavior(supports_all_applications: bool) -> (r: u64)
    ensures
        r == (MOVE_TO_ACTIVE_SPACE | FULL_SCREEN_AUXILIARY | TRANSIENT | IGNORES_CYCLE
            | (if supports_all_applications { CAN_JOIN_ALL_APPLICATIONS } else { 0 })),
        r == (if supports_all_applications { 0x4_014a_u64 } else { 0x14a_u64 }),
{
    let behavior: u64 = MOVE_TO_ACTIVE_SPACE | FULL_SCREEN_AUXILIARY | TRANSIENT | IGNORES_CYCLE;
    assert(behavior == 0x14a) by (bit_vector)
        requires
            behavior == 0x2u64 | 0x100u64 | 0x8u64 | 0x40u64;
    if supports_all_applications {
        let all: u64 = behavior | CAN_JOIN_ALL_APPLICATIONS;
        assert(all == 0x4_014a) by (bit_vector)
            requires
                behavior == 0x14a,
                all == behavior | 0x4_0000u64;
        all
    } else {
        assert(behavior | 0 == behavior) by (bit_vector);
        behavior
    }
}

/// `v` kept between `lo` and `hi` (`i32::clamp`, with `lo <= hi`).
pub open spec fn clamped(v: int, lo: int, hi: int) -> int {
    if v < lo { lo } else if v > hi { hi } else { v }
}

pub open spec fn fits_i32(v: int) -> bool {
    i32::MIN <= v <= i32::MAX
}

/// Where the overlay goes in a monitor's work area, in physical pixels: at
/// the bottom centre, `margin` above the lower edge, moved by the configured
/// offsets (x to the right, y upward) and kept inside the work area.
pub open spec fn overlay_position_spec(
    x: int, y: int, width: int, height: int,
    overlay_width: int, overlay_height: int, margin: int, offset_x: int, offset_y: int,
) -> (int, int) {
    let max_x = x + width - overlay_width;
    let max_y = y + height - overlay_height;
    let base_x = x + (if width - overlay_width > 0 { (width - overlay_width) / 2 } else { 0 });
    let base_y = y + height - overlay_height - margin;
    (
        clamped(base_x + offset_x, x, if max_x > x { max_x } else { x }),
        clamped(base_y - offset_y, y, if max_y > y { max_y } else { y }),
    )
}

/// Places the overlay in a work area at `(x, y)` of `width` by `height`.
/// Every intermediate sum must fit in an `i32`.
pub fn overlay_position(
    x: i32, y: i32, width: i32, height: i32,
    overlay_width: i32, overlay_height: i32, margin: i32, offset_x: i32, offset_y: i32,
) -> (r: (i32, i32))
    requires
        fits_i32(x + width),
        fits_i32(x + width - overlay_width),
        fits_i32(y + height),
        fits_i32(y + height - overlay_height),
        fits_i32(y + height - overlay_height - margin),
        fits_i32(width - overlay_width),
        fits_i32(x + (if width - overlay_width > 0 { (width - overlay_width) / 2 } else { 0 }) + offset_x),
        fits_i32(y + height - overlay_height - margin - offset_y),
    ensures
        (r.0 as int, r.1 as int) == overlay_position_spec(x as int, y as int, width as int, height as int,
            overlay_width as int, overlay_height as int, margin as int, offset_x as int, offset_y as int),
{
    let min_x = x;
    let max_x = x + width - overlay_width;
    let min_y = y;
    let max_y = y + height - overlay_height;
    let span = width - overlay_width;
    let half: i32 = if span > 0 { span / 2 } else { 0 };
    let base_x = x + half;
    let base_y = y + height - overlay_height - margin;
    let want_x = base_x + offset_x;
    let want_y = base_y - offset_y;
    let hi_x = if max_x > min_x { max_x } else { min_x };
    let hi_y = if max_y > min_y { max_y } else { min_y };
    let px = if want_x < min_x { min_x } else if want_x > hi_x { hi_x } else { want_x };
    let py = if want_y < min_y { min_y } else if want_y > hi_y { hi_y } else { want_y };
    (px, py)
}

} // verus!
