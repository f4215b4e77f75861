use boltscribe::history::{
    count_chinese_characters_and_english_words, count_input_characters, is_empty_asr_text_error,
    recording_cleanup_cutoff, RecordingCleanupUnit,
};
use boltscribe::output_volume::{ducking_strategy, should_duck_device, DuckingStrategy};
use boltscribe::overlay::{overlay_should_show, should_request_overlay_show, OverlayRevision};
use boltscribe::paths::{config_path, config_path_in, custom_app_dir_from, legacy_config_path, legacy_history_path};
use boltscribe::recorder::{has_audio_signal, u16_to_i16, AudioChunk, InitialAudioReadiness};
use boltscribe::startup_single_instance::{lock_path, socket_path};
use boltscribe::system_audio::{authorization_was_cancelled, restart_outcome};
use boltscribe::tray::{
    llm_correction_label, queue_windows_left_click_if_enabled, should_run_windows_left_click_toggle,
    voice_input_menu_state, VoiceInputMenuState, WindowsTrayClickController,
};
use boltscribe::vad::{initial_silence_timed_out, PreActivationAudio};
use boltscribe::workflow::WorkflowMode;
use std::path::{Path, PathBuf};
use std::time::Duration;

#[test]
fn empty_asr_text_errors_are_ignorable() {
    assert!(is_empty_asr_text_error("Volcengine ASR response did not contain text, log_id=None"));
    assert!(is_empty_asr_text_error("Volcengine live ASR response did not contain text, log_id=None"));
    assert!(is_empty_asr_text_error("ASR returned empty text"));
    assert!(!is_empty_asr_text_error("Volcengine ASR websocket timed out"));
}

#[test]
fn counts_only_chinese_characters_and_english_words() {
    assert_eq!(count_chinese_characters_and_english_words("你好，Agent! LDFC works. 123"), 5);
    assert_eq!(count_chinese_characters_and_english_words("Hello, world! 这是 GPT-5.4-mini。"), 6);
    assert_eq!(count_chinese_characters_and_english_words("，。！？ 123"), 0);
}

#[test]
fn counted_text_prefers_pasted_then_corrected_then_raw() {
    assert_eq!(count_input_characters("你好", "hello world", "a b c"), 2);
    assert_eq!(count_input_characters("  ", "hello world", "a b c"), 2);
    assert_eq!(count_input_characters("", " ", "a b c"), 3);
}

fn millis(timestamp: &str) -> i64 {
    chrono::DateTime::parse_from_rfc3339(timestamp).unwrap().timestamp_millis()
}

#[test]
fn recording_cleanup_cutoff_supports_days_weeks_and_thirty_day_months() {
    let now = millis("2026-03-31T12:34:56Z");

    assert_eq!(recording_cleanup_cutoff(now, 3, RecordingCleanupUnit::Day).unwrap(), millis("2026-03-28T12:34:56Z"));
    assert_eq!(recording_cleanup_cutoff(now, 2, RecordingCleanupUnit::Week).unwrap(), millis("2026-03-17T12:34:56Z"));
    assert_eq!(recording_cleanup_cutoff(now, 1, RecordingCleanupUnit::Month).unwrap(), millis("2026-03-01T12:34:56Z"));

    for unit in [RecordingCleanupUnit::Day, RecordingCleanupUnit::Week, RecordingCleanupUnit::Month] {
        assert!(recording_cleanup_cutoff(now, 0, unit).is_err());
    }
}

#[test]
fn recording_cleanup_age_limits() {
    let now = millis("2026-03-31T12:34:56Z");
    assert_eq!(
        recording_cleanup_cutoff(now, 36_501, RecordingCleanupUnit::Day).unwrap_err(),
        "Recording cleanup days cannot exceed 36500"
    );
    assert_eq!(
        recording_cleanup_cutoff(now, 5_201, RecordingCleanupUnit::Week).unwrap_err(),
        "Recording cleanup weeks cannot exceed 5200"
    );
    assert_eq!(
        recording_cleanup_cutoff(now, 1_201, RecordingCleanupUnit::Month).unwrap_err(),
        "Recording cleanup months cannot exceed 1200"
    );
    assert!(recording_cleanup_cutoff(now, 36_500, RecordingCleanupUnit::Day).is_ok());
}

#[test]
fn whitelist_empty_matches_any_device() {
    assert!(should_duck_device("External Speaker", &Vec::new()));
}

#[test]
fn whitelist_matches_device_name_exactly() {
    let whitelist = vec!["External Speaker".to_string()];

    assert!(should_duck_device("External Speaker", &whitelist));
    assert!(!should_duck_device("Headphones", &whitelist));
}

#[test]
fn ducking_strategy_prefers_native_controls() {
    assert_eq!(ducking_strategy(true, true, false, true), DuckingStrategy::Volume);
    assert_eq!(ducking_strategy(false, true, false, true), DuckingStrategy::NativeMute);
    assert_eq!(ducking_strategy(false, false, false, true), DuckingStrategy::SoundSourceHotkey);
    assert_eq!(ducking_strategy(false, false, false, false), DuckingStrategy::Unsupported);
}

#[test]
fn ducking_strategy_prefers_mute_when_requested() {
    assert_eq!(ducking_strategy(true, true, true, true), DuckingStrategy::NativeMute);
    assert_eq!(ducking_strategy(true, false, true, true), DuckingStrategy::Volume);
    assert_eq!(ducking_strategy(false, false, true, true), DuckingStrategy::SoundSourceHotkey);
}

#[test]
fn config_path_uses_hidden_home_directory() {
    let path = config_path().unwrap();
    assert!(Path::new(&path).ends_with(".boltscribe/config.json"));
}

#[test]
fn legacy_config_path_keeps_application_support_location() {
    let path = legacy_config_path().unwrap();
    assert!(Path::new(&path).ends_with("LightningSpeaking/config.json"));
}

#[test]
fn legacy_hidden_config_path_keeps_previous_hidden_location() {
    let path = boltscribe::paths::legacy_hidden_config_path().unwrap();
    assert!(Path::new(&path).ends_with(".lightning-speaking/config.json"));
}

#[test]
fn default_app_dir_stays_in_application_support() {
    assert!(Path::new(&boltscribe::paths::default_app_dir().unwrap()).ends_with("BoltScribe"));
}

#[test]
fn legacy_history_path_keeps_previous_application_support_location() {
    assert!(Path::new(&legacy_history_path().unwrap()).ends_with("LightningSpeaking/history.jsonl"));
}

#[test]
fn paths_join_under_the_given_directory() {
    assert_eq!(config_path_in(Some("/home/alice".to_string())).unwrap(), "/home/alice/.boltscribe/config.json");
    assert_eq!(config_path_in(Some("/home/alice/".to_string())).unwrap(), "/home/alice/.boltscribe/config.json");
    assert_eq!(config_path_in(None).unwrap_err(), "Cannot resolve user home directory");
}

#[test]
fn custom_data_directory_must_be_absolute() {
    assert_eq!(custom_app_dir_from("/p/data_dir.txt", "  \n").unwrap(), None);
    assert_eq!(custom_app_dir_from("/p/data_dir.txt", " /data/bolt \n").unwrap(), Some("/data/bolt".to_string()));
    assert_eq!(
        custom_app_dir_from("/p/data_dir.txt", "relative").unwrap_err(),
        "Custom data directory in /p/data_dir.txt must be absolute"
    );
}

#[test]
fn empty_and_bit_perfect_zero_samples_have_no_signal() {
    assert!(!has_audio_signal(&[]));
    assert!(!has_audio_signal(&[0, 0, 0, 0]));
}

#[test]
fn any_nonzero_sample_counts_as_signal() {
    assert!(has_audio_signal(&[0, 1, 0]));
    assert!(has_audio_signal(&[0, -1, 0]));
}

#[test]
fn unsigned_samples_are_centred() {
    assert_eq!(u16_to_i16(&[0, 32_768, 65_535]), vec![-32_768, 0, 32_767]);
}

#[test]
fn initial_audio_readiness_ignores_digital_silence() {
    let mut readiness = InitialAudioReadiness::default();

    readiness.observe(&[0, 0, 0]);
    let error = readiness.poll(false, 0, 0).unwrap().unwrap_err();

    assert!(error.contains("No audio signal"));
    assert_eq!(error, "No audio signal arrived within 0ms");
}

#[test]
fn initial_audio_readiness_accepts_the_first_nonzero_sample() {
    let mut readiness = InitialAudioReadiness::default();

    readiness.observe(&[0, 1, 0]);

    assert!(readiness.poll(false, 0, 0).unwrap().is_ok());
}

#[test]
fn initial_audio_readiness_rejects_a_failed_stream() {
    let readiness = InitialAudioReadiness::default();

    let error = readiness.poll(true, 0, 1_000).unwrap().unwrap_err();

    assert!(error.contains("Input stream failed"));
    assert!(InitialAudioReadiness::default().poll(false, 10, 1_000).is_none());
}

#[test]
fn guard_paths_match_the_official_plugin_identifier_format() {
    assert_eq!(PathBuf::from(lock_path("cn.local.boltscribe")), PathBuf::from("/tmp/cn_local_boltscribe_startup.lock"));
    assert_eq!(PathBuf::from(socket_path("cn.local.boltscribe")), PathBuf::from("/tmp/cn_local_boltscribe_si.sock"));
}

#[test]
fn detects_localized_authorization_cancellation() {
    assert!(authorization_was_cancelled("execution error: 用户已取消。 (-128)"));
    assert!(!authorization_was_cancelled("execution error: /usr/bin/killall failed. (1)"));
}

#[test]
fn restart_outcome_reports_cancellation_and_failures() {
    assert_eq!(restart_outcome(true, "", "exit status: 0"), Ok(true));
    assert_eq!(restart_outcome(false, "error (-128)", "exit status: 1"), Ok(false));
    assert_eq!(
        restart_outcome(false, "  ", "exit status: 1").unwrap_err(),
        "macOS did not restart the system audio service (osascript exited with exit status: 1)"
    );
    assert_eq!(
        restart_outcome(false, " killall failed \n", "exit status: 1").unwrap_err(),
        "macOS did not restart the system audio service: killall failed"
    );
}

#[test]
fn voice_input_menu_item_starts_for_idle_and_error() {
    let expected = VoiceInputMenuState { label: "开始语音输入", enabled: true };

    assert_eq!(voice_input_menu_state(&WorkflowMode::Idle), expected);
    assert_eq!(voice_input_menu_state(&WorkflowMode::Error), expected);
}

#[test]
fn voice_input_menu_item_stops_while_recording() {
    assert_eq!(
        voice_input_menu_state(&WorkflowMode::Recording),
        VoiceInputMenuState { label: "停止语音输入", enabled: true }
    );
}

#[test]
fn voice_input_menu_item_is_disabled_while_processing() {
    assert_eq!(
        voice_input_menu_state(&WorkflowMode::Processing),
        VoiceInputMenuState { label: "开始语音输入", enabled: false }
    );
}

#[test]
fn llm_label_offers_the_opposite_action() {
    assert_eq!(llm_correction_label(true), "关闭 LLM 纠错");
    assert_eq!(llm_correction_label(false), "启用 LLM 纠错");
}

#[test]
fn windows_left_click_queues_toggle() {
    let mut controller = WindowsTrayClickController::default();

    let click_id = queue_windows_left_click_if_enabled(&mut controller, true);

    assert_eq!(click_id, Some(1));
    assert!(controller.is_left_click_current(1));
}

#[test]
fn windows_left_click_disabled_does_not_queue_toggle() {
    let mut controller = WindowsTrayClickController::default();

    let click_id = queue_windows_left_click_if_enabled(&mut controller, false);

    assert_eq!(click_id, None);
    assert!(!controller.is_left_click_current(1));
}

#[test]
fn windows_left_click_disabled_before_delay_skips_toggle() {
    let mut controller = WindowsTrayClickController::default();
    let click_id = queue_windows_left_click_if_enabled(&mut controller, true).unwrap();

    assert!(!should_run_windows_left_click_toggle(&controller, click_id, false));
    assert!(should_run_windows_left_click_toggle(&controller, click_id, true));
}

#[test]
fn windows_double_click_cancels_pending_toggle() {
    let mut controller = WindowsTrayClickController::default();
    let click_id = controller.queue_left_click().unwrap();

    controller.cancel_for_double_click();

    assert!(!controller.is_left_click_current(click_id));
}

#[test]
fn windows_double_click_ignores_following_left_button_up() {
    let mut controller = WindowsTrayClickController::default();

    controller.cancel_for_double_click();

    assert_eq!(controller.queue_left_click(), None);
    assert_eq!(controller.queue_left_click(), Some(2));
}

#[test]
fn pre_activation_audio_preserves_long_input_in_order_and_stops_after_activation() {
    let mut pending = PreActivationAudio::new();
    for marker in 0..300i16 {
        pending.push(&AudioChunk { samples: vec![marker; 20], sample_rate: 1_000, channels: 1 });
    }

    let buffered = pending.take_for_activation();
    assert_eq!(buffered.len(), 300);
    assert_eq!(buffered.first().unwrap().samples[0], 0);
    assert_eq!(buffered.last().unwrap().samples[0], 299);

    pending.push(&AudioChunk { samples: vec![300], sample_rate: 1_000, channels: 1 });
    assert!(pending.take_for_activation().is_empty());
}

fn ms(duration: Duration) -> u64 {
    duration.as_millis() as u64
}

#[test]
fn initial_silence_timeout_applies_even_while_audio_keeps_arriving() {
    let timeout = Duration::from_secs(15);
    assert!(!initial_silence_timed_out(false, ms(Duration::from_millis(14_999)), ms(timeout)));
    assert!(initial_silence_timed_out(false, ms(timeout), ms(timeout)));
    assert!(!initial_silence_timed_out(true, ms(Duration::from_secs(60)), ms(timeout)));
}

#[test]
fn overlay_is_visible_for_starting_recording_processing_and_error() {
    for mode in [WorkflowMode::Starting, WorkflowMode::Recording, WorkflowMode::Processing, WorkflowMode::Error] {
        assert!(overlay_should_show(&mode));
    }
    assert!(!overlay_should_show(&WorkflowMode::Idle));
}

#[test]
fn only_starting_forces_a_fresh_show_for_an_already_visible_panel() {
    assert!(should_request_overlay_show(&WorkflowMode::Starting, true));
    assert!(!should_request_overlay_show(&WorkflowMode::Recording, true));
    assert!(!should_request_overlay_show(&WorkflowMode::Error, true));
    assert!(!should_request_overlay_show(&WorkflowMode::Processing, true));
    assert!(should_request_overlay_show(&WorkflowMode::Processing, false));
}

#[test]
fn stale_overlay_revisions_are_ignored() {
    let mut revision = OverlayRevision::default();
    assert!(revision.claim_overlay_revision(5));
    assert!(!revision.claim_overlay_revision(4));
    assert!(revision.overlay_revision_is_current(5));
    assert!(revision.claim_overlay_revision(5));
    assert!(revision.claim_overlay_revision(9));
    assert!(!revision.overlay_revision_is_current(5));
}
