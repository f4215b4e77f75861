use boltscribe::vad::{vad_step, VadAction, VadEvent, VadWorkerState};
use boltscribe::vad::{gate_profile, VadLimits, WEBRTC_VAD_MODE};
use boltscribe::config::OutputVolumeDuckingConfig;
use boltscribe::output_volume::{start_ducking_session, OutputVolumeDuckingSession};
use boltscribe::vad::{closing_phase, VadPhase};
use boltscribe::injector::{
    accessibility_permission_granted, accessibility_trusted, open_accessibility_settings, paste_refusal, paste_text,
    request_accessibility_permission, type_text,
};
use boltscribe::output_volume::list_output_devices;

#[test]
fn pasting_blank_text_is_refused() {
    assert_eq!(paste_text("  \n"), Err("Cannot paste empty text".to_string()));
    assert_eq!(paste_text(""), Err("Cannot paste empty text".to_string()));
}

#[test]
fn pasting_needs_the_accessibility_permission() {
    assert_eq!(
        paste_refusal("hello", false).as_deref(),
        Some("Missing Accessibility permission. Enable BoltScribe in System Settings > Privacy & Security > Accessibility, then try again.")
    );
    assert_eq!(paste_refusal("hello", true), None);
    assert_eq!(paste_refusal(" ", false).as_deref(), Some("Cannot paste empty text"));
}

#[test]
fn without_a_key_event_backend_typing_is_reported_unavailable() {
    assert!(accessibility_trusted(false));
    assert!(request_accessibility_permission());
    assert!(accessibility_permission_granted());
    assert_eq!(open_accessibility_settings(), Ok(()));
    assert_eq!(type_text("x"), Err("Text injection is only implemented on macOS".to_string()));
    assert_eq!(paste_text("hello"), Err("Text injection is only implemented on macOS".to_string()));
}

#[test]
fn without_an_audio_backend_no_output_device_is_listed() {
    assert_eq!(list_output_devices(), Ok(Vec::new()));
}

#[test]
fn the_gate_closes_activated_only_after_speech() {
    assert_eq!(closing_phase(Some(VadPhase::Armed), true), Some(VadPhase::Activated));
    assert_eq!(closing_phase(Some(VadPhase::Armed), false), Some(VadPhase::Cancelled));
    assert_eq!(closing_phase(None, false), Some(VadPhase::Cancelled));
    assert_eq!(closing_phase(Some(VadPhase::TimedOut), true), None);
    assert_eq!(closing_phase(Some(VadPhase::Cancelled), false), None);
    assert_eq!(closing_phase(Some(VadPhase::Error), false), Some(VadPhase::Cancelled));
}

#[test]
fn unsupported_platform_ducking_is_noop() {
    let config = OutputVolumeDuckingConfig {
        enabled: true,
        mute_instead_of_reduce: false,
        reduction_percent: 70,
        device_name_whitelist: Vec::new(),
        sound_source_hotkey_fallback_enabled: true,
        sound_source_toggle_mute_hotkey: "Cmd+Opt+Ctrl+A".to_string(),
    };

    assert!(start_ducking_session(&config).unwrap().is_none());
}

#[test]
fn a_disabled_ducking_starts_nothing_and_restoring_succeeds() {
    let mut config = OutputVolumeDuckingConfig {
        enabled: false,
        mute_instead_of_reduce: true,
        reduction_percent: 0,
        device_name_whitelist: vec!["Speakers".to_string()],
        sound_source_hotkey_fallback_enabled: false,
        sound_source_toggle_mute_hotkey: String::new(),
    };
    assert!(start_ducking_session(&config).unwrap().is_none());
    config.enabled = true;
    assert!(start_ducking_session(&config).unwrap().is_none());
    assert_eq!(OutputVolumeDuckingSession.restore(), Ok(()));
}

// Bounds under which the detector's settings are exercised here.
const TEST_LIMITS: VadLimits = VadLimits {
    min_noise_margin_db: 6,
    max_noise_margin_db: 30,
    min_confirmation_ms: 200,
    max_confirmation_ms: 1_200,
    confirmation_step_ms: 40,
    min_noise_window_ms: 400,
    max_noise_window_ms: 4_000,
    noise_window_step_ms: 200,
    continuous_speech_ms: 240,
};

#[test]
fn custom_gate_defaults_and_frame_alignment_are_stable() {
    let default_profile = gate_profile(TEST_LIMITS, 12, 480, 2_000);
    let custom_profile = gate_profile(TEST_LIMITS, 27, 913, 1_249);

    assert_eq!(WEBRTC_VAD_MODE, 3);
    assert_eq!(default_profile.noise_margin_db, 12);
    assert_eq!(default_profile.confirmation_ms, 480);
    assert_eq!(default_profile.noise_window_ms, 2_000);
    assert_eq!(default_profile.noise_window_frames, 100);
    assert_eq!(default_profile.required_voice_frames, 24);
    assert_eq!(default_profile.required_consecutive_frames, 12);
    assert_eq!(default_profile.window_frames, 48);
    assert_eq!(custom_profile.noise_margin_db, 27);
    assert_eq!(custom_profile.confirmation_ms, 920);
    assert_eq!(custom_profile.noise_window_ms, 1_200);
    assert_eq!(custom_profile.noise_window_frames, 60);
    assert_eq!(custom_profile.required_voice_frames, 46);
    assert_eq!(custom_profile.required_consecutive_frames, 12);
    assert_eq!(custom_profile.window_frames, 92);
}

#[test]
fn gate_settings_are_clamped_to_their_bounds() {
    let low = gate_profile(TEST_LIMITS, 0, 0, 0);
    assert_eq!((low.noise_margin_db, low.confirmation_ms, low.noise_window_ms), (6, 200, 400));
    let high = gate_profile(TEST_LIMITS, 99, 99_999, 99_999);
    assert_eq!((high.noise_margin_db, high.confirmation_ms, high.noise_window_ms), (30, 1_200, 4_000));
}

#[test]
fn the_voice_detector_worker_activates_once_and_forwards_later_audio() {
    let s = VadWorkerState::new();
    let (s, action) = vad_step(s, VadEvent::Deadline { elapsed_ms: 100, timeout_ms: 15_000 });
    assert_eq!(action, VadAction::Nothing);
    let (s, action) = vad_step(s, VadEvent::ChunkHandled { was_activated: false });
    assert_eq!(action, VadAction::Nothing);
    let (s, action) = vad_step(s, VadEvent::SpeechConfirmed { elapsed_ms: 900 });
    assert_eq!(action, VadAction::StartLiveAsr);
    assert_eq!((s.activated, s.phase, s.activity_offset_ms), (true, VadPhase::Activated, 900));
    let (s, action) = vad_step(s, VadEvent::SpeechConfirmed { elapsed_ms: 1_000 });
    assert_eq!(action, VadAction::Nothing);
    let (s, action) = vad_step(s, VadEvent::ChunkHandled { was_activated: true });
    assert_eq!(action, VadAction::ForwardChunk);
    let (s, action) = vad_step(s, VadEvent::Deadline { elapsed_ms: 60_000, timeout_ms: 15_000 });
    assert_eq!(action, VadAction::Nothing);
    let (s, action) = vad_step(s, VadEvent::Stop);
    assert_eq!(action, VadAction::Stop);
    assert!(s.stopped);
    assert_eq!(closing_phase(Some(s.phase), s.activated), Some(VadPhase::Activated));
}

#[test]
fn the_voice_detector_worker_times_out_cancels_and_fails_open() {
    let (s, action) = vad_step(VadWorkerState::new(), VadEvent::Deadline { elapsed_ms: 15_000, timeout_ms: 15_000 });
    assert_eq!(action, VadAction::Stop);
    assert_eq!(s.phase, VadPhase::TimedOut);
    let (s, _) = vad_step(VadWorkerState::new(), VadEvent::Cancel);
    assert_eq!(closing_phase(Some(s.phase), s.activated), None);
    let (s, action) = vad_step(VadWorkerState::new(), VadEvent::ConversionFailed { live: true, elapsed_ms: 30 });
    assert_eq!(action, VadAction::FailOpen);
    assert!(s.activated);
    let (s, action) = vad_step(VadWorkerState::new(), VadEvent::ConversionFailed { live: false, elapsed_ms: 30 });
    assert_eq!(action, VadAction::ReportError);
    assert_eq!(s.phase, VadPhase::Error);
    assert_eq!(vad_step(s, VadEvent::UpdateSettings).1, VadAction::ApplySettings);
}
