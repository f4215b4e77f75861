use boltscribe::asr::{classify_handshake_failure, HandshakeFailure, LiveAudioFormat};
use boltscribe::recorder::AudioChunk;
use boltscribe::autostart::{is_managed_launch_agent, launch_agent_path_in, launch_agent_plist, launch_agent_refusal};
use boltscribe::commands::{format_duration, refresh_busy_message, refresh_timeout_message, refresh_worker_exited_message};
use boltscribe::config::{CorrectionConfig, CorrectionRule, DictionaryEntry};
use boltscribe::config_import::{defaults_fit_schema, prepare_import};
use boltscribe::history_store::{
    history_read_paths, history_recordings_dirs, merge_json_fields, HistoryLine, HistoryPageCursor, HistoryStore,
    RetryRecord,
};
use boltscribe::input_stats::{plan_stats_ledger_update, LedgerAction};
use boltscribe::json::{get_member, JsonNumber, JsonValue};
use boltscribe::keyboard_shortcut::{key_code, ShortcutKey};

fn s(v: &str) -> JsonValue {
    JsonValue::String(v.to_string())
}

fn obj(members: Vec<(&str, JsonValue)>) -> JsonValue {
    JsonValue::Object(members.into_iter().map(|(k, v)| (k.to_string(), v)).collect())
}

fn text_of(v: Option<&JsonValue>) -> Option<&str> {
    match v {
        Some(JsonValue::String(t)) => Some(t.as_str()),
        _ => None,
    }
}

#[test]
fn key_codes_follow_the_macos_layout() {
    assert_eq!(key_code(ShortcutKey::Character('A')), Ok(0x00));
    assert_eq!(key_code(ShortcutKey::Character('M')), Ok(0x2E));
    assert_eq!(key_code(ShortcutKey::Character('0')), Ok(0x1D));
    assert_eq!(key_code(ShortcutKey::Space), Ok(0x31));
    assert_eq!(key_code(ShortcutKey::Function(1)), Ok(0x7A));
    assert_eq!(key_code(ShortcutKey::Function(20)), Ok(0x5A));
    assert_eq!(key_code(ShortcutKey::Function(21)), Err("Unsupported macOS shortcut key".to_string()));
    assert!(key_code(ShortcutKey::Character('?')).is_err());
}

#[test]
fn handshake_failures_are_classified() {
    assert_eq!(classify_handshake_failure(HandshakeFailure::HttpStatus(503)), ("http_temporary", true));
    assert_eq!(classify_handshake_failure(HandshakeFailure::HttpStatus(429)), ("http_temporary", true));
    assert_eq!(classify_handshake_failure(HandshakeFailure::HttpStatus(401)), ("http_client", false));
    assert_eq!(classify_handshake_failure(HandshakeFailure::Tls), ("tls_certificate", false));
    assert_eq!(classify_handshake_failure(HandshakeFailure::Url), ("invalid_url", false));
    assert_eq!(classify_handshake_failure(HandshakeFailure::HttpFormat), ("configuration", false));
    assert_eq!(classify_handshake_failure(HandshakeFailure::IoTimeout), ("timeout", true));
    assert_eq!(classify_handshake_failure(HandshakeFailure::Io), ("network", true));
    assert_eq!(classify_handshake_failure(HandshakeFailure::Other), ("handshake", true));
    assert_eq!(classify_handshake_failure(HandshakeFailure::Interrupted), ("timeout", true));
}

#[test]
fn replacement_fields_are_written_over_stored_ones() {
    let stored = obj(vec![("future_field", s("kept")), ("id", s("r1")), ("raw_text", s("old"))]);
    let replacement = obj(vec![("id", s("r1")), ("raw_text", s("new")), ("pasted_text", s("p"))]);
    let merged = merge_json_fields(stored, &replacement).unwrap();
    assert_eq!(text_of(get_member(&merged, "future_field")), Some("kept"));
    assert_eq!(text_of(get_member(&merged, "raw_text")), Some("new"));
    assert_eq!(text_of(get_member(&merged, "pasted_text")), Some("p"));
    assert_eq!(
        merge_json_fields(s("x"), &replacement).unwrap_err(),
        "Stored JSON value is not an object"
    );
    assert_eq!(
        merge_json_fields(obj(vec![]), &s("x")).unwrap_err(),
        "Replacement JSON value is not an object"
    );
}

#[test]
fn ledger_update_merges_the_first_entry_and_drops_duplicates() {
    let ids = vec![Some("a".to_string()), None, Some("r".to_string()), Some("r".to_string())];
    let update = plan_stats_ledger_update(&ids, "r", true);
    assert_eq!(update.actions, vec![LedgerAction::Keep, LedgerAction::Keep, LedgerAction::Merge, LedgerAction::Remove]);
    assert!(!update.append);
    let hidden = plan_stats_ledger_update(&ids, "r", false);
    assert_eq!(hidden.actions[2], LedgerAction::Remove);
    let missing = plan_stats_ledger_update(&ids, "new", true);
    assert!(missing.append);
    assert!(missing.actions.iter().all(|a| *a == LedgerAction::Keep));
}

fn line(id: &str) -> HistoryLine {
    HistoryLine {
        raw: String::new(),
        has_value: true,
        created_at: Some(1),
        audio_finished_at: Some(1),
        id: Some(id.to_string()),
        audio: None,
    }
}

#[test]
fn replace_targets_every_line_of_the_record() {
    let lines = vec![line("a"), line("b"), line("a")];
    assert_eq!(HistoryStore::replace("a", &lines).unwrap(), vec![true, false, true]);
    assert_eq!(HistoryStore::replace("zzz", &lines).unwrap_err(), "History record zzz was not found");
    assert_eq!(HistoryStore::replace(" ", &lines).unwrap_err(), "History record id cannot be empty");
}

fn retry(id: &str, error: Option<&str>, raw: &str, has_audio: bool) -> RetryRecord {
    RetryRecord {
        id: id.to_string(),
        workflow_error: error.map(str::to_string),
        raw_text: raw.to_string(),
        corrected_text: String::new(),
        pasted_text: String::new(),
        has_audio,
    }
}

#[test]
fn retry_needs_a_failed_record_without_text_and_with_audio() {
    let records = vec![
        retry("ok", Some("network down"), "", true),
        retry("fine", None, "", true),
        retry("texted", Some("boom"), "hello", true),
        retry("silent", Some("boom"), "", false),
        retry("ok", None, "", true),
    ];
    assert_eq!(HistoryStore::load_retryable(" ok ", &records), Ok(0));
    assert_eq!(
        HistoryStore::load_retryable("fine", &records).unwrap_err(),
        "History record fine is not a failed workflow"
    );
    assert_eq!(
        HistoryStore::load_retryable("texted", &records).unwrap_err(),
        "History record texted already contains transcription text"
    );
    assert_eq!(
        HistoryStore::load_retryable("silent", &records).unwrap_err(),
        "The recording for history record silent is unavailable"
    );
    assert_eq!(
        HistoryStore::load_retryable("nope", &records).unwrap_err(),
        "History record nope was not found"
    );
    assert_eq!(
        HistoryStore::load_retryable("", &records).unwrap_err(),
        "History record id cannot be empty"
    );
}

#[test]
fn paging_skips_the_offset_of_visible_records() {
    let mut cursor = HistoryPageCursor::new(2, 1);
    let visible = [true, false, true, true, true];
    let taken: Vec<bool> = visible.iter().map(|v| cursor.collect(*v)).collect();
    assert_eq!(taken, vec![false, false, true, true, false]);
    assert!(!cursor.wants_more());
    assert_eq!(cursor.visible_count, 4);
}

#[test]
fn history_files_and_recording_dirs() {
    assert_eq!(history_read_paths("/a/h", "/b/h", true, true), vec!["/a/h".to_string(), "/b/h".to_string()]);
    assert_eq!(history_read_paths("/a/h", "/a/h", true, true), vec!["/a/h".to_string()]);
    assert_eq!(history_read_paths("/a/h", "/b/h", false, true), vec!["/b/h".to_string()]);
    assert_eq!(history_read_paths("/a/h", "/b/h", false, false), vec!["/a/h".to_string()]);
    assert_eq!(history_recordings_dirs("/a/r", "/b/r"), vec!["/a/r".to_string(), "/b/r".to_string()]);
    assert_eq!(history_recordings_dirs("/a/r", "/a/r"), vec!["/a/r".to_string()]);
}

#[test]
fn import_prepares_a_merged_document_and_report() {
    let defaults = obj(vec![
        ("asr", obj(vec![("auth_mode", s("api_key")), ("language", s("zh-CN"))])),
        ("hotkey", s("PageUp")),
    ]);
    assert!(defaults_fit_schema(&defaults));
    assert!(!defaults_fit_schema(&obj(vec![("hotkeys", s("not an object parent is fine")), ("audio", s("x"))])));
    let imported = obj(vec![
        ("asr", obj(vec![("language", JsonValue::Number(JsonNumber::PosInt(3)))])),
        ("extra", JsonValue::Bool(true)),
        ("hotkey", s("F8")),
    ]);
    let prepared = prepare_import(imported, defaults).unwrap();
    assert_eq!(text_of(get_member(&prepared.merged, "hotkey")), Some("F8"));
    assert_eq!(
        text_of(get_member(get_member(&prepared.merged, "asr").unwrap(), "language")),
        Some("zh-CN")
    );
    assert_eq!(prepared.report.invalid_fields, vec!["asr.language".to_string()]);
    assert_eq!(prepared.report.unknown_fields, vec!["extra".to_string()]);
    assert_eq!(prepared.report.missing_fields, vec!["asr.auth_mode".to_string()]);
    assert_eq!(
        prepared.report.notes,
        vec!["Imported legacy plain config JSON without export metadata.".to_string()]
    );
    assert!(!prepared.asr_auth_mode_present);
    assert_eq!(prepared.correction_text_presence, (false, false));
    assert_eq!(
        prepare_import(s("nope"), obj(vec![])).unwrap_err(),
        "Imported config must be a JSON object"
    );
}

#[test]
fn missing_correction_texts_are_filled_from_the_structured_lists() {
    let mut c = CorrectionConfig {
        enabled: true,
        user_requirements: String::new(),
        prompt_template: String::new(),
        variables: Vec::new(),
        dictionary_text: String::new(),
        disabled_dictionary_terms: vec!["LDFC".to_string(), "gone".to_string()],
        correction_rules_text: "keep me".to_string(),
        correction_rules: vec![CorrectionRule { source: "a".to_string(), target: "b".to_string(), note: String::new() }],
        dictionary: vec![DictionaryEntry { term: "LDFC".to_string(), aliases: Vec::new(), note: String::new() }],
    };
    c.fill_missing_text_fields(false, true);
    assert_eq!(c.dictionary_text, "LDFC");
    assert_eq!(c.correction_rules_text, "keep me");
    assert_eq!(c.disabled_dictionary_terms, vec!["LDFC".to_string()]);
}

fn chunk(samples: Vec<i16>, sample_rate: u32, channels: u16) -> AudioChunk {
    AudioChunk { samples, sample_rate, channels }
}

#[test]
fn live_audio_keeps_the_format_of_its_first_chunk() {
    let mut format = LiveAudioFormat::new();
    assert_eq!(format.check_chunk(&chunk(vec![], 0, 0)), Ok(false));
    assert_eq!(format.check_chunk(&chunk(vec![1], 0, 1)).unwrap_err(), "Invalid live audio format");
    assert_eq!(format.check_chunk(&chunk(vec![1, 2], 48_000, 2)), Ok(true));
    assert_eq!(format.sample_rate, Some(48_000));
    assert_eq!(format.check_chunk(&chunk(vec![3, 4], 48_000, 2)), Ok(true));
    assert_eq!(
        format.check_chunk(&chunk(vec![3], 44_100, 1)).unwrap_err(),
        "Live audio format changed during recording"
    );
}

#[test]
fn durations_and_refresh_messages() {
    assert_eq!(format_duration(5), "5ms");
    assert_eq!(format_duration(8000), "8s");
    assert_eq!(format_duration(0), "0s");
    assert_eq!(format_duration(1500), "1500ms");
    let timeout = refresh_timeout_message("Test audio device refresh", 5);
    assert!(timeout.contains("timed out"));
    assert_eq!(
        timeout,
        "Test audio device refresh timed out after 5ms. The system audio service may be unresponsive; try again later or restart the audio service."
    );
    assert!(refresh_busy_message("Input refresh").starts_with("Input refresh is already waiting"));
    assert_eq!(refresh_worker_exited_message("X"), "X worker exited before returning");
}

#[test]
fn launch_agent_plist_targets_boltscribe() {
    let plist = launch_agent_plist();
    assert!(plist.contains("<string>cn.local.boltscribe</string>"));
    assert!(plist.contains("<string>BoltScribe</string>"));
    assert!(plist.contains("<string>/usr/bin/open</string>"));
}

#[test]
fn launch_agent_file_and_ownership() {
    assert_eq!(
        launch_agent_path_in(Some("/Users/u".to_string())).unwrap(),
        "/Users/u/Library/LaunchAgents/cn.local.boltscribe.plist"
    );
    assert_eq!(launch_agent_path_in(None).unwrap_err(), "Cannot resolve user home directory");
    assert!(is_managed_launch_agent(&launch_agent_plist()));
    assert!(!is_managed_launch_agent("<plist>other.app</plist>"));
    assert_eq!(launch_agent_refusal("/p", false, false, true), None);
    assert_eq!(launch_agent_refusal("/p", true, true, false), None);
    assert_eq!(
        launch_agent_refusal("/p", true, false, true).unwrap(),
        "Launch agent /p already exists and is not managed by BoltScribe"
    );
    assert_eq!(
        launch_agent_refusal("/p", true, false, false).unwrap(),
        "Launch agent /p is not managed by BoltScribe"
    );
}
