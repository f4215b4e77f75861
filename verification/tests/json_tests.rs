use boltscribe::asr_response::{definite_utterance_end, extract_text, AsrResponseState};
use boltscribe::config::{ConfigImportReport, CorrectionConfig, PromptVariable};
use boltscribe::config_import::{
    collect_missing_fields, collect_unknown_fields, config_schema_value, extract_imported_config,
    join_field_path, merge_imported_value, value_matches_schema,
};
use boltscribe::corrector::{
    build_chat_completions_body, build_correction_prompt, build_responses_body, endpoint_url,
    extract_chat_completions_text, extract_corrected_text, extract_responses_text, extract_usage,
    finish_correction, normalize_thinking_effort, LlmCallLog, LlmRequestSettings,
};
use boltscribe::json::{get_member, JsonNumber, JsonValue};

fn s(v: &str) -> JsonValue {
    JsonValue::String(v.to_string())
}

fn n(v: u64) -> JsonValue {
    JsonValue::Number(JsonNumber::PosInt(v))
}

fn arr(items: Vec<JsonValue>) -> JsonValue {
    JsonValue::Array(items)
}

fn obj(members: Vec<(&str, JsonValue)>) -> JsonValue {
    JsonValue::Object(members.into_iter().map(|(k, v)| (k.to_string(), v)).collect())
}

fn text_of(v: Option<&JsonValue>) -> Option<&str> {
    match v {
        Some(JsonValue::String(t)) => Some(t.as_str()),
        _ => None,
    }
}

fn u64_of(v: Option<&JsonValue>) -> Option<u64> {
    match v {
        Some(JsonValue::Number(JsonNumber::PosInt(x))) => Some(*x),
        _ => None,
    }
}

#[test]
fn extracts_object_result_text() {
    let value = obj(vec![("result", obj(vec![("text", s("  你好，LDFC。 "))]))]);
    assert_eq!(extract_text(&value).unwrap(), "你好，LDFC。");
}

#[test]
fn extracts_array_result_text() {
    let value = obj(vec![("result", arr(vec![obj(vec![("text", s("你好，"))]), obj(vec![("text", s("LDFC。"))])]))]);
    assert_eq!(extract_text(&value).unwrap(), "你好，LDFC。");
}

#[test]
fn missing_result_text_is_an_error() {
    let value = obj(vec![("result", arr(vec![obj(vec![("text", s("  "))])]))]);
    assert_eq!(extract_text(&value).unwrap_err(), "Volcengine ASR response did not contain result.text");
}

#[test]
fn response_state_waits_for_protocol_final_frame() {
    let mut state = AsrResponseState::default();
    let partial = obj(vec![("result", obj(vec![("text", s("中间结果"))]))]);
    assert!(!state.apply_result(&partial, false, 10));
    assert_eq!(state.best_text, "中间结果");

    let definite_utterance = obj(vec![
        ("audio_info", obj(vec![("duration", n(1200))])),
        (
            "result",
            obj(vec![
                ("text", s("已定稿分句")),
                ("utterances", arr(vec![obj(vec![("definite", JsonValue::Bool(true)), ("text", s("已定稿分句"))])])),
            ]),
        ),
    ]);
    assert!(!state.apply_result(&definite_utterance, false, 20));
    assert_eq!(state.best_text, "已定稿分句");
    assert_eq!(state.service_duration_ms, Some(1200));

    let final_value = obj(vec![
        ("audio_info", obj(vec![("duration", n(2400))])),
        (
            "result",
            obj(vec![
                ("text", s("最终结果")),
                ("utterances", arr(vec![obj(vec![("definite", JsonValue::Bool(true)), ("text", s("最终结果"))])])),
            ]),
        ),
    ]);
    assert!(state.apply_result(&final_value, true, 30));
    assert_eq!(state.best_text, "最终结果");
    assert_eq!(state.service_duration_ms, Some(2400));
}

#[test]
fn definite_utterance_end_takes_the_latest_definite_end() {
    let value = obj(vec![(
        "result",
        obj(vec![(
            "utterances",
            arr(vec![
                obj(vec![("definite", JsonValue::Bool(true)), ("end_time_ms", n(800))]),
                obj(vec![("definite", JsonValue::Bool(false)), ("end_time_ms", n(5000))]),
                obj(vec![("definite", JsonValue::Bool(true)), ("end_time", n(1500))]),
            ]),
        )]),
    )]);
    assert_eq!(definite_utterance_end(&value), Some(1500));
    assert_eq!(definite_utterance_end(&obj(vec![])), None);
}

fn correction(template: &str, dictionary_text: &str) -> CorrectionConfig {
    CorrectionConfig {
        enabled: true,
        user_requirements: String::new(),
        prompt_template: template.to_string(),
        variables: Vec::new(),
        dictionary_text: dictionary_text.to_string(),
        disabled_dictionary_terms: Vec::new(),
        correction_rules_text: String::new(),
        correction_rules: Vec::new(),
        dictionary: Vec::new(),
    }
}

#[test]
fn prompt_contains_requirements_dictionary_and_raw_text() {
    let mut c = correction("要求={{user_requirements}}\n词典={{dictionary}}\n原文={{raw_text}}", "LDFC");
    c.user_requirements = "不要扩写".to_string();
    let prompt = build_correction_prompt("这是 ldfc", &c);
    assert!(prompt.contains("不要扩写"));
    assert!(prompt.contains("LDFC"));
    assert!(prompt.contains("这是 ldfc"));
}

#[test]
fn prompt_uses_simple_dictionary_lines_and_variables() {
    let mut c = correction("场景={{scene}}\n词典={{dictionary}}\n原文：\n```text\n{{raw_text}}\n```", "LDFC\nCodex");
    c.user_requirements = "保留口吻".to_string();
    c.variables = vec![PromptVariable { name: "scene".to_string(), value: "技术讨论".to_string() }];
    c.correction_rules_text = "艾迪 -> ID".to_string();

    let prompt = build_correction_prompt("这是 ldfc", &c);

    assert!(prompt.contains("场景=技术讨论"));
    assert!(prompt.contains("词典=LDFC\nCodex"));
    assert!(!prompt.contains("艾迪"));
    assert!(prompt.contains("```text\n这是 ldfc\n```"));
}

#[test]
fn prompt_excludes_disabled_dictionary_terms_without_removing_them_from_config() {
    let mut c = correction("词典={{dictionary}}\n原文={{raw_text}}", "BoltScribe\nCodex\nCodex CLI\nLDFC");
    c.disabled_dictionary_terms = vec![" codex ".to_string()];

    let prompt = build_correction_prompt("测试", &c);

    assert_eq!(prompt, "词典=BoltScribe\nCodex CLI\nLDFC\n原文=测试");
    assert_eq!(c.dictionary_text, "BoltScribe\nCodex\nCodex CLI\nLDFC");
}

#[test]
fn prompt_uses_raw_correction_rules_text() {
    let mut c = correction("规则={{correction_rules}}\n原文={{raw_text}}", "");
    c.user_requirements = "保留口吻".to_string();
    c.correction_rules_text = "艾迪 => ID # 英文缩写".to_string();

    let prompt = build_correction_prompt("这是艾迪", &c);

    assert!(prompt.contains("艾迪 => ID # 英文缩写"));
}

#[test]
fn builtin_names_are_not_user_variables() {
    let mut c = correction("{{raw_text}}|{{x}}", "");
    c.variables = vec![
        PromptVariable { name: "raw_text".to_string(), value: "nope".to_string() },
        PromptVariable { name: " x ".to_string(), value: " 1 ".to_string() },
        PromptVariable { name: " ".to_string(), value: "ignored".to_string() },
    ];
    assert_eq!(build_correction_prompt(" hi ", &c), "hi|1");
}

#[test]
fn responses_output_text_is_extracted() {
    let value = obj(vec![(
        "output",
        arr(vec![obj(vec![
            ("content", arr(vec![obj(vec![("text", s("已纠错文本")), ("type", s("output_text"))])])),
            ("type", s("message")),
        ])]),
    )]);

    assert_eq!(extract_responses_text(&value), "已纠错文本");
}

#[test]
fn responses_top_level_output_text_wins() {
    let value = obj(vec![("output", arr(vec![])), ("output_text", s("最终文本"))]);

    assert_eq!(extract_responses_text(&value), "最终文本");
}

#[test]
fn chat_content_array_is_extracted() {
    let value = obj(vec![(
        "choices",
        arr(vec![obj(vec![(
            "message",
            obj(vec![("content", arr(vec![obj(vec![("text", s("兼容文本")), ("type", s("text"))])]))]),
        )])]),
    )]);

    assert_eq!(extract_chat_completions_text(&value), "兼容文本");
}

#[test]
fn responses_format_falls_back_to_chat_shape() {
    let value = obj(vec![("choices", arr(vec![obj(vec![("message", obj(vec![("content", s("兼容 Chat 返回"))]))])]))]);

    assert_eq!(extract_corrected_text(&value, "responses"), "兼容 Chat 返回");
}

#[test]
fn usage_extracts_reasoning_tokens_from_responses_shape() {
    let value = obj(vec![(
        "usage",
        obj(vec![
            ("input_tokens", n(12)),
            ("output_tokens", n(8)),
            ("output_tokens_details", obj(vec![("reasoning_tokens", n(3))])),
            ("total_tokens", n(20)),
        ]),
    )]);

    let usage = extract_usage(&value).unwrap();

    assert_eq!(usage.input_tokens, Some(12));
    assert_eq!(usage.output_tokens, Some(8));
    assert_eq!(usage.total_tokens, Some(20));
    assert_eq!(usage.reasoning_tokens, Some(3));
}

fn default_settings() -> LlmRequestSettings {
    LlmRequestSettings {
        provider: "openai".to_string(),
        model: "gpt-5.4-mini".to_string(),
        system_prompt: "system".to_string(),
        thinking_enabled: false,
        thinking_effort: "medium".to_string(),
        max_output_tokens: None,
    }
}

#[test]
fn responses_body_uses_reasoning_when_enabled() {
    let mut llm = default_settings();
    llm.thinking_enabled = true;
    llm.thinking_effort = "high".to_string();
    llm.max_output_tokens = Some(128);

    let body = build_responses_body(&llm, n(0), "原文");
    assert_eq!(text_of(get_member(get_member(&body, "reasoning").unwrap(), "effort")), Some("high"));
    assert_eq!(u64_of(get_member(&body, "max_output_tokens")), Some(128));
    assert!(get_member(&body, "tools").is_none());
    assert!(get_member(&body, "tool_choice").is_none());
    assert!(get_member(&body, "parallel_tool_calls").is_none());
}

#[test]
fn chat_body_uses_openai_max_completion_tokens_without_tools() {
    let mut llm = default_settings();
    llm.max_output_tokens = Some(128);

    let body = build_chat_completions_body(&llm, n(0), "原文");
    assert_eq!(u64_of(get_member(&body, "max_completion_tokens")), Some(128));
    assert!(get_member(&body, "max_tokens").is_none());
    assert!(get_member(&body, "tools").is_none());
    assert!(get_member(&body, "tool_choice").is_none());
    assert!(get_member(&body, "parallel_tool_calls").is_none());
}

#[test]
fn chat_body_keeps_legacy_max_tokens_for_compatible_providers() {
    let mut llm = default_settings();
    llm.provider = "custom".to_string();
    llm.max_output_tokens = Some(128);

    let body = build_chat_completions_body(&llm, n(0), "原文");
    assert_eq!(u64_of(get_member(&body, "max_tokens")), Some(128));
    assert!(get_member(&body, "max_completion_tokens").is_none());
    assert!(get_member(&body, "tool_choice").is_none());
    assert!(get_member(&body, "parallel_tool_calls").is_none());
}

#[test]
fn volc_ark_gets_its_thinking_switch_and_effort_names() {
    let mut llm = default_settings();
    llm.provider = "volc_ark".to_string();
    llm.thinking_enabled = true;
    llm.thinking_effort = "none".to_string();
    let body = build_chat_completions_body(&llm, n(0), "x");
    assert_eq!(text_of(get_member(get_member(&body, "thinking").unwrap(), "type")), Some("enabled"));
    assert_eq!(text_of(get_member(&body, "reasoning_effort")), Some("minimal"));
    assert_eq!(normalize_thinking_effort("volc_ark", " xhigh "), "high");
    assert_eq!(normalize_thinking_effort("openai", " xhigh "), "xhigh");
    assert_eq!(normalize_thinking_effort("openai", "extreme"), "medium");
}

#[test]
fn endpoint_url_adds_the_route_once() {
    assert_eq!(endpoint_url(" https://api.openai.com/v1/ ", "/responses"), "https://api.openai.com/v1/responses");
    assert_eq!(endpoint_url("https://x/v1/responses//", "/responses"), "https://x/v1/responses");
}

fn log() -> LlmCallLog {
    LlmCallLog {
        provider: "openai".to_string(),
        model: "m".to_string(),
        api_format: "responses".to_string(),
        endpoint: "e".to_string(),
        duration_ms: 0,
        success: false,
        request_id: None,
        finish_reason: None,
        usage: None,
        error: None,
    }
}

#[test]
fn empty_correction_is_a_failure_with_log() {
    let value = obj(vec![("status", s("incomplete"))]);
    let error = finish_correction(&value, "responses", log(), 42).unwrap_err();
    assert_eq!(error.to_string(), "LLM returned empty correction");
    let l = error.log.unwrap();
    assert_eq!(l.duration_ms, 42);
    assert_eq!(l.finish_reason.as_deref(), Some("incomplete"));
    assert_eq!(l.error.as_deref(), Some("LLM returned empty correction"));
    assert!(!l.success);

    let ok = finish_correction(&obj(vec![("output_text", s(" done "))]), "responses", log(), 7).unwrap();
    assert_eq!(ok.text, "done");
    assert!(ok.log.success);
}

fn defaults() -> JsonValue {
    obj(vec![
        ("asr", obj(vec![("auth_mode", s("api_key")), ("language", s("zh-CN"))])),
        ("audio", obj(vec![("input_device_priority", arr(vec![])), ("input_device_blacklist", arr(vec![]))])),
        ("hotkey", s("PageUp")),
        ("hotkey_enabled", arr(vec![JsonValue::Bool(true), JsonValue::Bool(false)])),
        ("hotkeys", arr(vec![s("PageUp"), s("")])),
    ])
}

#[test]
fn unknown_and_missing_fields_are_reported() {
    let schema = defaults();
    let imported = obj(vec![
        ("asr", obj(vec![("language", s("en")), ("surprise", n(1))])),
        ("extra", JsonValue::Bool(true)),
        ("hotkeys", arr(vec![s("F8")])),
    ]);
    let mut unknown = Vec::new();
    collect_unknown_fields(&imported, &schema, "", &mut unknown);
    assert_eq!(unknown, vec!["asr.surprise".to_string(), "extra".to_string()]);

    let mut missing = Vec::new();
    collect_missing_fields(&imported, &defaults(), &schema, "", &mut missing);
    assert_eq!(missing, vec!["asr.auth_mode".to_string(), "audio".to_string(), "hotkey".to_string(), "hotkey_enabled".to_string()]);
}

#[test]
fn merge_keeps_defaults_for_invalid_values() {
    let schema = defaults();
    let mut target = defaults();
    let imported = obj(vec![
        ("asr", obj(vec![("language", n(5))])),
        ("hotkey", s("F9")),
        ("hotkeys", s("not a list")),
    ]);
    let mut invalid = Vec::new();
    merge_imported_value(&mut target, imported, &schema, "", &mut invalid);
    assert_eq!(invalid, vec!["asr.language".to_string(), "hotkeys".to_string()]);
    assert_eq!(text_of(get_member(&target, "hotkey")), Some("F9"));
    assert_eq!(text_of(get_member(get_member(&target, "asr").unwrap(), "language")), Some("zh-CN"));
    assert!(value_matches_schema(&n(1), &JsonValue::Null, "llm.max_output_tokens"));
    assert!(!value_matches_schema(&n(1), &JsonValue::Null, "llm.temperature"));
    assert_eq!(join_field_path("", "a"), "a");
    assert_eq!(join_field_path("a", "b"), "a.b");
}

#[test]
fn schema_describes_list_items() {
    let schema = config_schema_value(obj(vec![
        ("audio", obj(vec![("input_device_blacklist", arr(vec![])), ("input_device_priority", arr(vec![])), ("output_volume_ducking", obj(vec![("device_name_whitelist", arr(vec![]))]))])),
        ("correction", obj(vec![("correction_rules", arr(vec![])), ("dictionary", arr(vec![])), ("disabled_dictionary_terms", arr(vec![])), ("variables", arr(vec![]))])),
        ("hotkey_enabled", arr(vec![])),
        ("hotkeys", arr(vec![])),
        ("llm", obj(vec![("model_presets", arr(vec![])), ("provider_settings", arr(vec![])), ("race_models", arr(vec![])), ("race_targets", arr(vec![]))])),
    ]));
    let audio = get_member(&schema, "audio").unwrap();
    match get_member(audio, "input_device_priority") {
        Some(JsonValue::Array(items)) => {
            assert_eq!(items.len(), 1);
            assert_eq!(text_of(get_member(&items[0], "id")), Some(""));
        }
        _ => panic!("expected an array"),
    }
    match get_member(&schema, "hotkey_enabled") {
        Some(JsonValue::Array(items)) => assert!(matches!(items[0], JsonValue::Bool(false))),
        _ => panic!("expected an array"),
    }
    // Array items of imported objects are merged over the schema item.
    let mut invalid = Vec::new();
    let mut target = obj(vec![("audio", obj(vec![("input_device_priority", arr(vec![]))]))]);
    let imported = obj(vec![("audio", obj(vec![("input_device_priority", arr(vec![obj(vec![("id", s("mic"))]), n(3)]))]))]);
    let merge_schema = obj(vec![("audio", obj(vec![("input_device_priority", arr(vec![obj(vec![("id", s("")), ("name", s(""))])]))]))]);
    merge_imported_value(&mut target, imported, &merge_schema, "", &mut invalid);
    assert_eq!(invalid, vec!["audio.input_device_priority[1]".to_string()]);
    match get_member(get_member(&target, "audio").unwrap(), "input_device_priority") {
        Some(JsonValue::Array(items)) => {
            assert_eq!(items.len(), 1);
            assert_eq!(text_of(get_member(&items[0], "id")), Some("mic"));
            assert_eq!(text_of(get_member(&items[0], "name")), Some(""));
        }
        _ => panic!("expected an array"),
    }
}

fn empty_report() -> ConfigImportReport {
    ConfigImportReport {
        format: None,
        version: None,
        missing_fields: Vec::new(),
        unknown_fields: Vec::new(),
        invalid_fields: Vec::new(),
        notes: Vec::new(),
    }
}

#[test]
fn envelope_extraction_reports_a_newer_version() {
    let mut report = empty_report();
    let value = obj(vec![
        ("config", obj(vec![("hotkey", s("F8"))])),
        ("format", s("boltscribe.config")),
        ("signature", s("x")),
        ("version", n(2)),
    ]);
    let config = extract_imported_config(value, &mut report).unwrap();
    assert_eq!(text_of(get_member(&config, "hotkey")), Some("F8"));
    assert_eq!(report.version, Some(2));
    assert_eq!(report.format.as_deref(), Some("boltscribe.config"));
    assert_eq!(
        report.notes,
        vec!["Import version 2 is newer than supported version 1; unknown fields were ignored.".to_string()]
    );
    assert_eq!(report.unknown_fields, vec!["envelope.signature".to_string()]);
}

#[test]
fn envelope_extraction_accepts_a_plain_config() {
    let mut report = empty_report();
    let config = extract_imported_config(obj(vec![("hotkey", s("F8"))]), &mut report).unwrap();
    assert_eq!(text_of(get_member(&config, "hotkey")), Some("F8"));
    assert_eq!(report.notes, vec!["Imported legacy plain config JSON without export metadata.".to_string()]);
    assert!(extract_imported_config(s("x"), &mut empty_report()).is_err());
    let mut report = empty_report();
    assert_eq!(
        extract_imported_config(obj(vec![("format", s("other"))]), &mut report).unwrap_err(),
        "Import file does not contain a config object"
    );
    assert_eq!(
        report.notes,
        vec![
            "Import format is \"other\", expected \"boltscribe.config\".".to_string(),
            "Import file has no numeric version field.".to_string()
        ]
    );
}
