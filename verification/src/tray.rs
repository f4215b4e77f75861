//! The tray menu's labels and the Windows single-click handling of the icon.

use vstd::prelude::*;
use crate::workflow::WorkflowMode;

verus! {

broadcast use vstd::string::group_string_axioms;

/// Label of the menu item that switches the correction model on or off.
pub fn llm_correction_label(enabled: bool) -> (r: &'static str)
    ensures
        r@ == (if enabled { "关闭 LLM 纠错"@ } else { "启用 LLM 纠错"@ }),
{
    if enabled {
        "关闭 LLM 纠错"
    } else {
        "启用 LLM 纠错"
    }
}

/// Label and availability of the voice-input menu item.
#[derive(Clone, Copy, Debug, PartialEq, Eq)]
pub struct VoiceInputMenuState {
    pub label: &'static str,
    pub enabled: bool,
}

/// While recording the item stops it; while the workflow is busy starting or
/// processing the item is greyed out; otherwise it starts a recording.
pub fn voice_input_menu_state(mode: &WorkflowMode) -> (r: VoiceInputMenuState)
    ensures
        r.label@ == (if *mode == WorkflowMode::Recording { "停止语音输入"@ } else { "开始语音输入"@ }),
        r.enabled == !(*mode == WorkflowMode::Processing || *mode == WorkflowMode::Starting),
{
    match mode {
        WorkflowMode::Recording => VoiceInputMenuState { label: "停止语音输入", enabled: true },
        WorkflowMode::Processing | WorkflowMode::Starting => VoiceInputMenuState { label: "开始语音输入", enabled: false },
        WorkflowMode::Idle | WorkflowMode::Error => VoiceInputMenuState { label: "开始语音输入", enabled: true },
    }
}

/// Whether a left click on the tray icon opens the menu: everywhere but on
/// Windows, where a left click toggles recording instead.
pub fn show_menu_on_left_click(on_windows: bool) -> (r: bool)
    ensures
        r == !on_windows,
{
    !on_windows
}

/// Tells a single left click on the tray icon from the first half of a
/// double click: a click is queued under a fresh number and runs only if no
/// later click or double click has replaced that number by then.
#[derive(Debug)]
pub struct WindowsTrayClickController {
    pub pending_left_click_id: u64,
    pub ignore_next_left_button_up: bool,
}

impl Default for WindowsTrayClickController {
    fn default() -> (r: Self)
        ensures
            r.pending_left_click_id == 0,
            !r.ignore_next_left_button_up,
    {
        WindowsTrayClickController { pending_left_click_id: 0, ignore_next_left_button_up: false }
    }
}

impl WindowsTrayClickController {
    /// Queues a left click and returns its number, unless the button-up
    /// belongs to a double click just handled.  Numbers wrap around.
    pub fn queue_left_click(&mut self) -> (r: Option<u64>)
        ensures
            old(self).ignore_next_left_button_up ==> r is None && final(self).pending_left_click_id == old(self).pending_left_click_id,
            !old(self).ignore_next_left_button_up ==> final(self).pending_left_click_id == (if old(self).pending_left_click_id == u64::MAX { 0 } else { old(self).pending_left_click_id + 1 })
                && r == Some(final(self).pending_left_click_id),
            !final(self).ignore_next_left_button_up,
    {
        if self.ignore_next_left_button_up {
            self.ignore_next_left_button_up = false;
            return None;
        }
        self.pending_left_click_id = self.pending_left_click_id.wrapping_add(1);
        Some(self.pending_left_click_id)
    }

    /// A double click invalidates the queued click and swallows the
    /// button-up that follows it.
    pub fn cancel_for_double_click(&mut self)
        ensures
            final(self).pending_left_click_id == (if old(self).pending_left_click_id == u64::MAX { 0 } else { old(self).pending_left_click_id + 1 }),
            final(self).ignore_next_left_button_up,
    {
        self.pending_left_click_id = self.pending_left_click_id.wrapping_add(1);
        self.ignore_next_left_button_up = true;
    }

    /// Whether `click_id` is still the latest queued click.
    pub fn is_left_click_current(&self, click_id: u64) -> (r: bool)
        ensures
            r == (self.pending_left_click_id == click_id),
    {
        self.pending_left_click_id == click_id
    }
}

/// Queues a left click only when tray-click recording is switched on.
pub fn queue_windows_left_click_if_enabled(click_controller: &mut WindowsTrayClickController, enabled: bool) -> (r: Option<u64>)
    ensures
        !enabled ==> r is None && *final(click_controller) == *old(click_controller),
        enabled ==> r == (if old(click_controller).ignore_next_left_button_up { None } else { Some(final(click_controller).pending_left_click_id) }),
        enabled ==> !final(click_controller).ignore_next_left_button_up,
        enabled && !old(click_controller).ignore_next_left_button_up ==> final(click_controller).pending_left_click_id == (if old(click_controller).pending_left_click_id == u64::MAX { 0 } else { old(click_controller).pending_left_click_id + 1 }),
        enabled && old(click_controller).ignore_next_left_button_up ==> final(click_controller).pending_left_click_id == old(click_controller).pending_left_click_id,
{
    if !enabled {
        return None;
    }
    click_controller.queue_left_click()
}

/// After the double-click delay: the queued click runs only if recording by
/// tray click is still on and no later click replaced it.
pub fn should_run_windows_left_click_toggle(click_controller: &WindowsTrayClickController, click_id: u64, enabled: bool) -> (r: bool)
    ensures
        r == (enabled && click_controller.pending_left_click_id == click_id),
{
    enabled && click_controller.is_left_click_current(click_id)
}

/// A click queued and then overtaken by a double click never runs.
pub proof fn law_double_click_cancels_pending(before: WindowsTrayClickController, queued: WindowsTrayClickController, after: WindowsTrayClickController, click_id: u64)
    requires
        !before.ignore_next_left_button_up,
        queued.pending_left_click_id == click_id,
        click_id == (if before.pending_left_click_id == u64::MAX { 0 } else { before.pending_left_click_id + 1 }),
        after.pending_left_click_id == (if queued.pending_left_click_id == u64::MAX { 0 } else { queued.pending_left_click_id + 1 }),
    ensures
        after.pending_left_click_id != click_id,
{
}

} // verus!
