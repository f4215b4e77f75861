use boltscribe::config::{default_max_history_records, default_thinking_effort, normalize_asr_auth_mode};
use boltscribe::config_import::{defaults_fit_schema, import_config_text, PreparedImport};
use boltscribe::hotkeys::HotkeyConfig;
use boltscribe::json::{get_member, parse_json_text, JsonNumber, JsonValue};

/// The parts of the application's default configuration that these imports
/// touch, as the application serialises them.
const DEFAULTS: &str = r#"{
  "hotkey": "PageUp",
  "hotkeys": ["PageUp", ""],
  "hotkey_enabled": [true, false],
  "asr": {"auth_mode": "api_key", "app_key": "", "access_key": "", "api_key": ""},
  "audio": {
    "input_device_priority": [],
    "input_device_blacklist": [],
    "output_volume_ducking": {
      "enabled": false,
      "reduction_percent": 80,
      "mute_instead_of_reduce": false,
      "sound_source_hotkey_fallback_enabled": false,
      "sound_source_toggle_mute_hotkey": "Cmd+Opt+Ctrl+A",
      "device_name_whitelist": []
    }
  },
  "retention": {"max_history_records": 500, "max_storage_bytes": 1073741824},
  "llm": {
    "provider": "openai",
    "thinking_effort": "medium",
    "max_output_tokens": null,
    "provider_settings": [],
    "race_models": [],
    "race_targets": [],
    "model_presets": []
  },
  "correction": {
    "enabled": true,
    "dictionary_text": "",
    "correction_rules_text": "",
    "variables": [],
    "disabled_dictionary_terms": [],
    "correction_rules": [],
    "dictionary": []
  }
}"#;

fn defaults() -> JsonValue {
    let d = parse_json_text(DEFAULTS).unwrap();
    assert!(defaults_fit_schema(&d));
    d
}

fn import(raw: &str) -> PreparedImport {
    import_config_text(raw, defaults()).unwrap()
}

fn envelope(version: u32, exported_at: Option<&str>, config: &str, extra: &str) -> String {
    let at = match exported_at {
        Some(t) => format!(r#""exported_at": "{t}", "#),
        None => String::new(),
    };
    format!(r#"{{"format": "boltscribe.config", "version": {version}, {at}"config": {config}{extra}}}"#)
}

fn at<'a>(v: &'a JsonValue, path: &[&str]) -> &'a JsonValue {
    let mut cur = v;
    for key in path {
        cur = get_member(cur, key).unwrap_or_else(|| panic!("missing {key}"));
    }
    cur
}

fn text(v: &JsonValue) -> &str {
    match v {
        JsonValue::String(s) => s.as_str(),
        other => panic!("not a string: {other:?}"),
    }
}

fn strings(v: &JsonValue) -> Vec<String> {
    match v {
        JsonValue::Array(items) => items.iter().map(|i| text(i).to_string()).collect(),
        other => panic!("not an array: {other:?}"),
    }
}

/// `DEFAULTS` with the member at `path` replaced by `value` (JSON text), or
/// removed when `value` is `None`.
fn edited(path: &[&str], value: Option<&str>) -> String {
    let mut doc = defaults();
    edit(&mut doc, path, value.map(|t| parse_json_text(t).unwrap()));
    to_text(&doc)
}

fn edit(doc: &mut JsonValue, path: &[&str], value: Option<JsonValue>) {
    let JsonValue::Object(members) = doc else { panic!("not an object") };
    let pos = members.iter().position(|(k, _)| k == path[0]);
    if path.len() == 1 {
        match (pos, value) {
            (Some(i), Some(v)) => members[i].1 = v,
            (Some(i), None) => {
                members.remove(i);
            }
            (None, Some(v)) => members.push((path[0].to_string(), v)),
            (None, None) => {}
        }
    } else {
        edit(&mut members[pos.unwrap()].1, &path[1..], value);
    }
}

fn to_text(v: &JsonValue) -> String {
    match v {
        JsonValue::Null => "null".to_string(),
        JsonValue::Bool(b) => b.to_string(),
        JsonValue::Number(JsonNumber::PosInt(u)) => u.to_string(),
        JsonValue::Number(JsonNumber::NegInt(i)) => i.to_string(),
        JsonValue::Number(JsonNumber::Float(t)) => t.clone(),
        JsonValue::String(s) => format!("{s:?}"),
        JsonValue::Array(items) => format!("[{}]", items.iter().map(to_text).collect::<Vec<_>>().join(",")),
        JsonValue::Object(m) => format!(
            "{{{}}}",
            m.iter().map(|(k, v)| format!("{k:?}:{}", to_text(v))).collect::<Vec<_>>().join(",")
        ),
    }
}

fn with(doc: &str, path: &[&str], value: Option<&str>) -> String {
    let mut d = parse_json_text(doc).unwrap();
    edit(&mut d, path, value.map(|t| parse_json_text(t).unwrap()));
    to_text(&d)
}

#[test]
fn config_import_fills_missing_fields_and_reports_unknown_fields() {
    let mut config = edited(&["hotkeys"], None);
    config = with(&config, &["llm", "thinking_effort"], None);
    config = with(&config, &["audio", "output_volume_ducking"], None);
    config = with(
        &config,
        &["llm", "provider_settings"],
        Some(r#"[{"provider": "custom", "endpoint": "https://example.test/v1", "api_format": "responses", "api_key": "secret", "future_field": true}]"#),
    );
    config = with(&config, &["future_top_level"], Some("true"));
    let raw = envelope(1, Some("2026-05-16T00:00:00Z"), &config, r#", "future_envelope_field": "ignored""#);

    let result = import(&raw);

    assert!(result.report.missing_fields.contains(&"hotkeys".to_string()));
    assert!(result.report.missing_fields.contains(&"llm.thinking_effort".to_string()));
    assert!(result.report.missing_fields.contains(&"audio.output_volume_ducking".to_string()));
    assert!(result.report.unknown_fields.contains(&"future_top_level".to_string()));
    assert!(result.report.unknown_fields.contains(&"llm.provider_settings[0].future_field".to_string()));
    assert!(result.report.unknown_fields.contains(&"envelope.future_envelope_field".to_string()));
    assert_eq!(strings(at(&result.merged, &["hotkeys"])), vec!["PageUp".to_string(), String::new()]);
    assert_eq!(text(at(&result.merged, &["llm", "thinking_effort"])), default_thinking_effort());
    assert_eq!(to_text(at(&result.merged, &["audio", "output_volume_ducking"])), to_text(at(&defaults(), &["audio", "output_volume_ducking"])));
    let JsonValue::Array(settings) = at(&result.merged, &["llm", "provider_settings"]) else { panic!() };
    assert_eq!(settings.len(), 1);
    assert_eq!(text(at(&settings[0], &["provider"])), "custom");
}

#[test]
fn config_import_infers_legacy_asr_auth_mode_for_old_exports() {
    let mut config = edited(&["asr", "auth_mode"], None);
    config = with(&config, &["asr", "app_key"], Some(r#""legacy-app-id""#));
    config = with(&config, &["asr", "access_key"], Some(r#""legacy-access-token""#));
    let raw = envelope(1, Some("2026-05-16T00:00:00Z"), &config, "");

    let result = import(&raw);

    assert!(!result.asr_auth_mode_present);
    let app_key = text(at(&result.merged, &["asr", "app_key"]));
    assert_eq!(normalize_asr_auth_mode("", app_key), "legacy");
}

#[test]
fn config_import_fills_missing_soundsource_ducking_fields() {
    let mut config = edited(&["audio", "output_volume_ducking", "mute_instead_of_reduce"], None);
    config = with(&config, &["audio", "output_volume_ducking", "sound_source_hotkey_fallback_enabled"], None);
    config = with(&config, &["audio", "output_volume_ducking", "sound_source_toggle_mute_hotkey"], None);
    let raw = envelope(1, Some("2026-05-20T00:00:00Z"), &config, "");

    let result = import(&raw);

    assert!(result.report.missing_fields.contains(&"audio.output_volume_ducking.mute_instead_of_reduce".to_string()));
    assert!(result
        .report
        .missing_fields
        .contains(&"audio.output_volume_ducking.sound_source_hotkey_fallback_enabled".to_string()));
    assert!(result
        .report
        .missing_fields
        .contains(&"audio.output_volume_ducking.sound_source_toggle_mute_hotkey".to_string()));
    let ducking = ["audio", "output_volume_ducking"];
    assert_eq!(to_text(at(at(&result.merged, &ducking), &["mute_instead_of_reduce"])), "false");
    assert_eq!(to_text(at(at(&result.merged, &ducking), &["sound_source_hotkey_fallback_enabled"])), "false");
    assert_eq!(text(at(at(&result.merged, &ducking), &["sound_source_toggle_mute_hotkey"])), "Cmd+Opt+Ctrl+A");
}

#[test]
fn config_import_accepts_legacy_plain_config_json() {
    let result = import(DEFAULTS);

    assert_eq!(text(at(&result.merged, &["hotkey"])), "PageUp");
    assert!(result.report.format.is_none());
    assert!(result.report.notes.iter().any(|note| note.contains("legacy plain config")));
}

#[test]
fn config_import_reports_newer_version() {
    let raw = envelope(2, None, DEFAULTS, "");

    let result = import(&raw);

    assert_eq!(result.report.version, Some(2));
    assert!(result.report.notes.iter().any(|note| note.contains("newer than supported")));
}

#[test]
fn config_import_reports_invalid_field_types_and_keeps_defaults() {
    let mut config = edited(&["hotkeys"], Some(r#"["PageUp", 42]"#));
    config = with(&config, &["retention", "max_history_records"], Some(r#""many""#));
    config = with(&config, &["llm", "max_output_tokens"], Some("4096"));
    config = with(
        &config,
        &["correction", "dictionary"],
        Some(r#"[{"term": "BoltScribe", "aliases": ["bolt", true], "note": ""}]"#),
    );
    let raw = envelope(1, None, &config, "");

    let result = import(&raw);

    assert!(result.report.invalid_fields.contains(&"hotkeys[1]".to_string()));
    assert!(result.report.invalid_fields.contains(&"retention.max_history_records".to_string()));
    assert!(result.report.invalid_fields.contains(&"correction.dictionary[0].aliases[1]".to_string()));
    let mut hotkeys = HotkeyConfig {
        hotkey: text(at(&result.merged, &["hotkey"])).to_string(),
        hotkeys: strings(at(&result.merged, &["hotkeys"])),
        hotkey_enabled: vec![true, false],
    };
    hotkeys.normalize_hotkeys();
    assert_eq!(hotkeys.hotkeys, vec!["PageUp".to_string(), String::new()]);
    assert_eq!(
        to_text(at(&result.merged, &["retention", "max_history_records"])),
        default_max_history_records().to_string()
    );
    assert_eq!(to_text(at(&result.merged, &["llm", "max_output_tokens"])), "4096");
}

#[test]
fn config_import_preserves_audio_device_policy_objects() {
    let mut config = edited(&["audio", "input_device_priority"], Some(r#"[{"id": "preferred", "name": "Preferred Mic"}]"#));
    config = with(&config, &["audio", "input_device_blacklist"], Some(r#"[{"id": "blocked", "name": "Capture Card"}]"#));
    let raw = envelope(1, None, &config, "");

    let result = import(&raw);

    let JsonValue::Array(priority) = at(&result.merged, &["audio", "input_device_priority"]) else { panic!() };
    assert_eq!(text(at(&priority[0], &["id"])), "preferred");
    let JsonValue::Array(blacklist) = at(&result.merged, &["audio", "input_device_blacklist"]) else { panic!() };
    assert_eq!(text(at(&blacklist[0], &["name"])), "Capture Card");
    assert!(result.report.invalid_fields.is_empty());
}

#[test]
fn import_reports_invalid_disabled_dictionary_term_items() {
    let mut config = edited(&["correction", "dictionary_text"], Some(r#""Codex""#));
    config = with(&config, &["correction", "disabled_dictionary_terms"], Some(r#"["Codex", 42]"#));

    let result = import(&config);

    assert!(result.report.invalid_fields.contains(&"correction.disabled_dictionary_terms[1]".to_string()));
    let JsonValue::Array(terms) = at(&result.merged, &["correction", "disabled_dictionary_terms"]) else { panic!() };
    assert_eq!(text(&terms[0]), "Codex");
}

#[test]
fn import_text_that_is_not_json_is_refused() {
    assert_eq!(
        import_config_text("{not json", defaults()).unwrap_err(),
        "Failed to parse imported config JSON"
    );
    assert_eq!(
        import_config_text("[1, 2]", defaults()).unwrap_err(),
        "Imported config must be a JSON object"
    );
}

#[test]
fn importing_an_export_of_the_defaults_changes_nothing() {
    let raw = envelope(1, Some("2026-05-16T00:00:00Z"), DEFAULTS, "");
    let result = import(&raw);
    assert_eq!(to_text(&result.merged), to_text(&defaults()));
    assert!(result.report.missing_fields.is_empty());
    assert!(result.report.unknown_fields.is_empty());
    assert!(result.report.invalid_fields.is_empty());
    assert!(result.report.notes.is_empty());
    assert_eq!(result.report.format.as_deref(), Some("boltscribe.config"));
}

#[test]
fn an_exported_configuration_comes_back_unchanged() {
    let mut config = edited(&["hotkey"], Some(r#""F8""#));
    config = with(
        &config,
        &["llm", "provider_settings"],
        Some(r#"[{"api_format": "chat_completions", "api_key": "k", "endpoint": "https://example.test/v1", "provider": "custom"}]"#),
    );
    config = with(&config, &["audio", "input_device_priority"], Some(r#"[{"id": "mic-1", "name": "Desk Mic"}]"#));
    let raw = envelope(1, Some("2026-05-16T00:00:00Z"), &config, "");

    let result = import(&raw);

    assert_eq!(to_text(&result.merged), to_text(&parse_json_text(&config).unwrap()));
    assert!(result.report.missing_fields.is_empty());
    assert!(result.report.unknown_fields.is_empty());
    assert!(result.report.invalid_fields.is_empty());
    assert!(result.report.notes.is_empty());
    assert_eq!(result.report.version, Some(1));
}
