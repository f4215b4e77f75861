//! The Fn-key long press that toggles recording: the state the key events
//! and the long-press timer share, and what each of them decides.

use vstd::prelude::*;

verus! {

/// What the Fn trigger knows between events.
#[derive(Debug, Clone, Copy, PartialEq, Eq, Structural)]
pub struct FnTriggerState {
    pub enabled: bool,
    /// Whether the Fn key is down.
    pub pressed: bool,
    /// Counts presses, releases and ignored events; a timer belongs to the
    /// press whose number it carries.
    pub sequence: u64,
    /// Whether the current press has already toggled recording.
    pub triggered_in_press: bool,
}

/// The event type of a change of the modifier flags.
pub const FLAGS_CHANGED_EVENT: u32 = 12;

/// The flag bit of the Fn key.
pub const SECONDARY_FN_FLAG: u64 = 0x0080_0000;

/// The number that follows `s`, wrapping round at the top.
pub open spec fn next_seq(s: u64) -> u64 {
    if s == u64::MAX { 0 } else { (s + 1) as u64 }
}

/// What a change of the modifier flags does: the number of a press that has
/// just begun, and the state after.  A disabled trigger forgets the key and
/// outdates any timer; a press starts a timer, a release outdates it.
pub open spec fn flags_outcome(s: FnTriggerState, fn_down: bool) -> (Option<u64>, FnTriggerState) {
    if !s.enabled {
        (None, FnTriggerState { pressed: false, sequence: next_seq(s.sequence), ..s })
    } else if fn_down && !s.pressed {
        (Some(next_seq(s.sequence)), FnTriggerState { pressed: true, sequence: next_seq(s.sequence), triggered_in_press: false, ..s })
    } else if !fn_down && s.pressed {
        (None, FnTriggerState { pressed: false, sequence: next_seq(s.sequence), triggered_in_press: false, ..s })
    } else {
        (None, s)
    }
}

/// Whether the timer of press `sequence` toggles recording: the press is
/// still held, is the latest one, and has not toggled yet.
pub open spec fn timer_fires(s: FnTriggerState, sequence: u64) -> bool {
    s.enabled && s.pressed && s.sequence == sequence && !s.triggered_in_press
}

/// The state after the timer of press `sequence` ran out.
pub open spec fn after_timer(s: FnTriggerState, sequence: u64) -> FnTriggerState {
    FnTriggerState { triggered_in_press: s.triggered_in_press || (s.enabled && s.pressed && s.sequence == sequence), ..s }
}

/// The Fn flag of a modifier-flags word.
pub open spec fn fn_flag_set(flags: u64) -> bool {
    flags & SECONDARY_FN_FLAG != 0
}

impl FnTriggerState {
    /// A trigger that is on and sees no key held.
    pub fn new() -> (r: Self)
        ensures
            r == (FnTriggerState { enabled: true, pressed: false, sequence: 0, triggered_in_press: false }),
    {
        FnTriggerState { enabled: true, pressed: false, sequence: 0, triggered_in_press: false }
    }

    /// Turns the trigger on or off.
    pub fn set_enabled(&mut self, enabled: bool)
        ensures
            *final(self) == (FnTriggerState { enabled, ..*old(self) }),
    {
        self.enabled = enabled;
    }

    /// A change of the modifier flags, with the Fn key down or up.  Returns
    /// the number of a press that has just begun: its long-press timer.
    pub fn on_flags_changed(&mut self, fn_down: bool) -> (timer: Option<u64>)
        ensures
            (timer, *final(self)) == flags_outcome(*old(self), fn_down),
    {
        if !self.enabled {
            self.pressed = false;
            self.sequence = self.sequence.wrapping_add(1);
            return None;
        }
        if fn_down {
            if !self.pressed {
                self.pressed = true;
                self.triggered_in_press = false;
                self.sequence = self.sequence.wrapping_add(1);
                return Some(self.sequence);
            }
            None
        } else {
            if self.pressed {
                self.pressed = false;
                self.sequence = self.sequence.wrapping_add(1);
                self.triggered_in_press = false;
            }
            None
        }
    }

    /// An event from the keyboard tap: only a change of the modifier flags
    /// counts, and the Fn key is down when its flag bit is set.  Returns the
    /// number of a press that has just begun.
    pub fn on_event(&mut self, event_type: u32, flags: u64) -> (timer: Option<u64>)
        ensures
            event_type != FLAGS_CHANGED_EVENT ==> timer is None && *final(self) == *old(self),
            event_type == FLAGS_CHANGED_EVENT ==> (timer, *final(self)) == flags_outcome(*old(self), fn_flag_set(flags)),
    {
        if event_type != FLAGS_CHANGED_EVENT {
            return None;
        }
        let fn_down = flags & SECONDARY_FN_FLAG != 0;
        self.on_flags_changed(fn_down)
    }

    /// The long-press timer of press `sequence` has run out: toggle
    /// recording when that press is still held and has not toggled yet.
    pub fn on_timer(&mut self, sequence: u64) -> (toggle: bool)
        ensures
            toggle == timer_fires(*old(self), sequence),
            *final(self) == after_timer(*old(self), sequence),
    {
        if !self.enabled || !self.pressed || self.sequence != sequence {
            return false;
        }
        let already = self.triggered_in_press;
        self.triggered_in_press = true;
        !already
    }
}

/// One press toggles recording at most once: after a timer has toggled, no
/// timer toggles again until the key is released and pressed anew.
pub proof fn law_one_toggle_per_press(s: FnTriggerState, t1: u64, t2: u64)
    requires
        timer_fires(s, t1),
    ensures
        !timer_fires(after_timer(s, t1), t2),
{
}

/// Releasing the key before its timer runs out cancels the long press, and
/// the timer of that press does not toggle the next press either.
pub proof fn law_release_cancels_timer(s: FnTriggerState, t: u64)
    requires
        s.enabled && s.pressed,
    ensures
        ({
            let released = flags_outcome(s, false).1;
            let pressed_again = flags_outcome(released, true).1;
            &&& !timer_fires(released, t)
            &&& !timer_fires(pressed_again, s.sequence)
        }),
{
}

/// A new press always gets a timer that fires when it runs out while the key
/// is still held.
pub proof fn law_press_starts_a_firing_timer(s: FnTriggerState)
    requires
        s.enabled && !s.pressed,
    ensures
        ({
            let (timer, pressed) = flags_outcome(s, true);
            timer matches Some(t) && timer_fires(pressed, t)
        }),
{
}

} // verus!
