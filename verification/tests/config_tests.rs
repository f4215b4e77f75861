use boltscribe::config::{
    default_max_history_records, default_max_storage_bytes, default_prompt_template,
    legacy_default_prompt_template, normalize_model_presets, normalize_race_targets,
    normalize_string_list, normalized_llm_model, previous_default_prompt_template, AsrConfig, AudioConfig,
    AudioInputDeviceRef, CorrectionConfig, CorrectionRule, DictionaryEntry, ModelPreset,
    OutputVolumeDuckingConfig, RaceModelTarget, RetentionConfig, SystemConfig,
};

fn default_correction() -> CorrectionConfig {
    CorrectionConfig {
        enabled: true,
        user_requirements: String::new(),
        prompt_template: default_prompt_template(),
        variables: Vec::new(),
        dictionary_text: String::new(),
        disabled_dictionary_terms: Vec::new(),
        correction_rules_text: String::new(),
        correction_rules: Vec::new(),
        dictionary: Vec::new(),
    }
}

fn default_asr() -> AsrConfig {
    AsrConfig {
        provider: "volcengine".to_string(),
        auth_mode: "api_key".to_string(),
        app_key: String::new(),
        access_key: String::new(),
        resource_id: "volc.seedasr.sauc.duration".to_string(),
        stream_url: String::new(),
        submit_url: String::new(),
        query_url: String::new(),
        language: "zh-CN".to_string(),
    }
}

#[test]
fn fn_long_press_duration_is_clamped() {
    let mut config = SystemConfig::default();
    config.fn_long_press_duration_ms = 0;
    config.normalize();
    assert_eq!(config.fn_long_press_duration_ms, 50);

    config.fn_long_press_duration_ms = 10_000;
    config.normalize();
    assert_eq!(config.fn_long_press_duration_ms, 5_000);
}

#[test]
fn explicit_api_key_auth_mode_survives_leftover_app_key() {
    let mut config = default_asr();
    config.auth_mode = "api_key".to_string();
    config.app_key = "legacy-app-id".to_string();

    config.normalize();

    assert_eq!(config.auth_mode, "api_key");
}

#[test]
fn missing_auth_mode_follows_the_app_key() {
    let mut config = default_asr();
    config.auth_mode = String::new();
    config.app_key = "legacy-app-id".to_string();
    config.normalize();
    assert_eq!(config.auth_mode, "legacy");

    let mut config = default_asr();
    config.auth_mode = String::new();
    config.normalize();
    assert_eq!(config.auth_mode, "api_key");
}

#[test]
fn legacy_prompt_template_is_promoted_to_current_default() {
    let mut config = default_correction();
    config.prompt_template = legacy_default_prompt_template();

    config.normalize();

    assert_eq!(config.prompt_template, default_prompt_template());
    assert!(config.prompt_template.contains("```text\n{{raw_text}}\n```"));
    assert!(config.prompt_template.contains("不要把语义正确且上下文合理的词强行替换为词典词"));
    assert!(config.prompt_template.contains("{{correction_rules}}"));
}

#[test]
fn previous_default_prompt_template_is_promoted_to_current_default() {
    let mut config = default_correction();
    config.prompt_template = previous_default_prompt_template();

    config.normalize();

    assert_eq!(config.prompt_template, default_prompt_template());
}

#[test]
fn disabled_dictionary_terms_are_trimmed_and_deduplicated() {
    let mut config = default_correction();
    config.dictionary_text = "Codex\nBoltScribe".to_string();
    config.disabled_dictionary_terms = vec![
        " codex ".to_string(),
        "CODEX".to_string(),
        String::new(),
        "BoltScribe".to_string(),
        "Removed term".to_string(),
    ];

    config.normalize();

    assert_eq!(config.disabled_dictionary_terms, vec!["Codex".to_string(), "BoltScribe".to_string()]);
}

#[test]
fn dictionary_arrow_lines_are_migrated_to_correction_rules() {
    let mut config = default_correction();
    config.dictionary = vec![
        DictionaryEntry { term: "\"艾迪\" -> \"ID\"".to_string(), aliases: Vec::new(), note: "英文缩写".to_string() },
        DictionaryEntry { term: "BoltScribe".to_string(), aliases: Vec::new(), note: String::new() },
    ];

    config.normalize();

    assert_eq!(config.dictionary.len(), 1);
    assert_eq!(config.dictionary[0].term, "BoltScribe");
    assert_eq!(
        config.correction_rules,
        vec![CorrectionRule { source: "艾迪".to_string(), target: "ID".to_string(), note: "英文缩写".to_string() }]
    );
}

#[test]
fn audio_config_defaults_to_system_input_device() {
    let mut config = AudioConfig {
        input_device_mode: "manual".to_string(),
        input_device_id: Some(" ".to_string()),
        input_device_name: None,
        ..Default::default()
    };

    config.normalize();

    assert_eq!(config.input_device_mode, "system_default");
    assert!(config.input_device_id.is_none());
    assert!(config.input_device_name.is_none());
}

#[test]
fn legacy_manual_input_device_migrates_to_priority() {
    let mut config = AudioConfig {
        input_device_mode: "manual".to_string(),
        input_device_id: Some(" legacy-id ".to_string()),
        input_device_name: Some(" Preferred Mic ".to_string()),
        ..Default::default()
    };

    config.normalize();

    assert_eq!(
        config.input_device_priority,
        vec![AudioInputDeviceRef { id: "legacy-id".to_string(), name: "Preferred Mic".to_string() }]
    );
    assert_eq!(config.input_device_mode, "manual");
    assert_eq!(config.input_device_id.as_deref(), Some("legacy-id"));
    assert_eq!(config.input_device_name.as_deref(), Some("Preferred Mic"));
}

#[test]
fn audio_device_policy_normalizes_without_losing_blacklisted_priority() {
    let mut config = AudioConfig::default();
    config.input_device_priority = vec![
        AudioInputDeviceRef { id: " mic-1 ".to_string(), name: " Main Mic ".to_string() },
        AudioInputDeviceRef { id: "mic-1".to_string(), name: "Duplicate Name".to_string() },
        AudioInputDeviceRef { id: String::new(), name: String::new() },
    ];
    config.input_device_blacklist =
        vec![AudioInputDeviceRef { id: " mic-1 ".to_string(), name: " Main Mic ".to_string() }];

    config.normalize();

    assert_eq!(config.input_device_priority.len(), 1);
    assert_eq!(config.input_device_priority[0].id, "mic-1");
    assert_eq!(config.input_device_priority[0].name, "Main Mic");
    assert_eq!(config.input_device_blacklist.len(), 1);
    assert_eq!(config.input_device_blacklist[0].id, "mic-1");
}

#[test]
fn output_volume_ducking_defaults_and_normalizes() {
    let mut config = AudioConfig::default();
    config.output_volume_ducking.enabled = true;
    config.output_volume_ducking.reduction_percent = 150;
    config.output_volume_ducking.device_name_whitelist = vec![
        " External Speaker ".to_string(),
        "External Speaker".to_string(),
        String::new(),
        "Display Audio".to_string(),
    ];
    config.output_volume_ducking.sound_source_toggle_mute_hotkey = " Cmd+Opt+Ctrl+A ".to_string();

    config.normalize();

    assert!(config.output_volume_ducking.enabled);
    assert!(!config.output_volume_ducking.mute_instead_of_reduce);
    assert_eq!(config.output_volume_ducking.reduction_percent, 100);
    assert_eq!(
        config.output_volume_ducking.device_name_whitelist,
        vec!["External Speaker".to_string(), "Display Audio".to_string()]
    );
    assert!(!config.output_volume_ducking.sound_source_hotkey_fallback_enabled);
    assert_eq!(config.output_volume_ducking.sound_source_toggle_mute_hotkey, "Cmd+Opt+Ctrl+A");

    let default_ducking = OutputVolumeDuckingConfig::default();
    assert!(!default_ducking.enabled);
    assert!(!default_ducking.mute_instead_of_reduce);
    assert_eq!(default_ducking.reduction_percent, 70);
    assert!(default_ducking.device_name_whitelist.is_empty());
    assert!(!default_ducking.sound_source_hotkey_fallback_enabled);
    assert_eq!(default_ducking.sound_source_toggle_mute_hotkey, "Cmd+Opt+Ctrl+A");
}

#[test]
fn sound_source_hotkey_is_validated_only_when_enabled() {
    let mut config = AudioConfig::default();
    config.output_volume_ducking.sound_source_toggle_mute_hotkey = "Cmd+Unknown".to_string();
    config.normalize();
    assert!(config.output_volume_ducking.validate().is_ok());

    config.output_volume_ducking.sound_source_hotkey_fallback_enabled = true;
    assert!(config.output_volume_ducking.validate().unwrap_err().contains("Invalid SoundSource mute shortcut"));
}

#[test]
fn llm_race_models_are_normalized() {
    let race_models = vec![
        " gpt-5.4-mini ".to_string(),
        "gpt-5.4-mini".to_string(),
        String::new(),
        "gpt-5.4".to_string(),
    ];

    assert_eq!(normalize_string_list(&race_models), vec!["gpt-5.4-mini".to_string(), "gpt-5.4".to_string()]);
}

#[test]
fn llm_race_targets_and_removed_volc_models_are_normalized() {
    let model_presets = vec![
        ModelPreset { provider: "volc_ark".to_string(), model: "doubao-seed-2-0-pro-260428".to_string() },
        ModelPreset { provider: "volc_ark".to_string(), model: "doubao-seed-2-0-mini-260428".to_string() },
    ];
    let race_targets = vec![
        RaceModelTarget { provider: "volc_ark".to_string(), model: "doubao-seed-1-6-251015".to_string() },
        RaceModelTarget { provider: "volc_ark".to_string(), model: "doubao-seed-2-0-mini-260428".to_string() },
        RaceModelTarget { provider: "volc_ark".to_string(), model: "doubao-seed-2-0-mini-260428".to_string() },
    ];

    assert_eq!(
        normalize_model_presets(&model_presets),
        vec![ModelPreset { provider: "volc_ark".to_string(), model: "doubao-seed-2-0-mini-260428".to_string() }]
    );
    assert_eq!(
        normalize_race_targets(&race_targets),
        vec![RaceModelTarget { provider: "volc_ark".to_string(), model: "doubao-seed-2-0-mini-260428".to_string() }]
    );
}

#[test]
fn withdrawn_volc_model_is_replaced() {
    assert_eq!(normalized_llm_model("volc_ark", "doubao-seed-1-6-251015"), "doubao-seed-2-0-lite-260428");
    assert_eq!(normalized_llm_model("openai", "doubao-seed-1-6-251015"), "doubao-seed-1-6-251015");
    assert_eq!(normalized_llm_model("volc_ark", "doubao-seed-2-0-mini-260428"), "doubao-seed-2-0-mini-260428");
}

#[test]
fn retention_limits_are_clamped() {
    let mut config = RetentionConfig::default();
    config.max_history_records = 10_000;
    config.max_storage_bytes = 9 * 1024 * 1024 * 1024;

    config.normalize();

    assert_eq!(config.max_history_records, default_max_history_records());
    assert_eq!(config.max_storage_bytes, default_max_storage_bytes());

    config.max_history_records = 0;
    config.max_storage_bytes = 0;
    config.normalize();

    assert_eq!(config.max_history_records, 1);
    assert_eq!(config.max_storage_bytes, 1);
}
