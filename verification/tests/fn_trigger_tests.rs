use boltscribe::output_volume::four_char_code;
use boltscribe::fn_trigger::{FnTriggerState, FLAGS_CHANGED_EVENT, SECONDARY_FN_FLAG};

#[test]
fn long_press_toggles_once() {
    let mut state = FnTriggerState::new();
    let timer = state.on_flags_changed(true);
    assert_eq!(timer, Some(1));
    assert!(state.on_timer(1));
    assert!(!state.on_timer(1));
    // A second flags event while held starts no new timer.
    assert_eq!(state.on_flags_changed(true), None);
}

#[test]
fn release_before_timer_cancels_it() {
    let mut state = FnTriggerState::new();
    let timer = state.on_flags_changed(true).unwrap();
    assert_eq!(state.on_flags_changed(false), None);
    assert!(!state.pressed);
    assert_eq!(state.sequence, 2);
    assert!(!state.on_timer(timer));
}

#[test]
fn new_press_gets_a_new_timer() {
    let mut state = FnTriggerState::new();
    let first = state.on_flags_changed(true).unwrap();
    assert!(state.on_timer(first));
    state.on_flags_changed(false);
    let second = state.on_flags_changed(true).unwrap();
    assert_eq!(second, 3);
    assert!(!state.on_timer(first));
    assert!(state.on_timer(second));
}

#[test]
fn disabled_trigger_ignores_presses() {
    let mut state = FnTriggerState::new();
    state.set_enabled(false);
    assert_eq!(state.on_flags_changed(true), None);
    assert!(!state.pressed);
    assert_eq!(state.sequence, 1);
    assert!(!state.on_timer(1));
}

#[test]
fn only_flag_changes_with_the_fn_bit_count() {
    let mut state = FnTriggerState::new();
    assert_eq!(state.on_event(10, SECONDARY_FN_FLAG), None);
    assert_eq!(state, FnTriggerState::new());
    assert_eq!(state.on_event(FLAGS_CHANGED_EVENT, 0x0010_0000), None);
    assert!(!state.pressed);
    assert_eq!(state.on_event(FLAGS_CHANGED_EVENT, SECONDARY_FN_FLAG | 0x0010_0000), Some(1));
    assert!(state.pressed);
}

#[test]
fn sequence_wraps_at_the_top() {
    let mut state = FnTriggerState { enabled: true, pressed: false, sequence: u64::MAX, triggered_in_press: false };
    assert_eq!(state.on_flags_changed(true), Some(0));
    assert!(state.on_timer(0));
}

#[test]
fn four_char_code_packs_bytes_high_first() {
    assert_eq!(four_char_code(*b"vmvc"), 0x766d_7663);
    assert_eq!(four_char_code([0, 0, 0, 1]), 1);
    assert_eq!(four_char_code([1, 0, 0, 0]), 0x0100_0000);
}
