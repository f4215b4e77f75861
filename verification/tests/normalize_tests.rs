use boltscribe::config::{
    normalize_correction_rules, normalize_dictionary, normalize_model_presets, normalize_provider_settings,
    normalize_string_list, CorrectionRule, DictionaryEntry, LlmProviderSettings, ModelPreset,
};

fn s(v: &str) -> String {
    v.to_string()
}

#[test]
fn string_lists_normalize_once_and_for_all() {
    let once = normalize_string_list(&vec![s(" a "), s(""), s("b"), s("a"), s("  ")]);
    assert_eq!(once, vec![s("a"), s("b")]);
    assert_eq!(normalize_string_list(&once), once);
}

#[test]
fn model_presets_normalize_once_and_for_all() {
    let presets = vec![
        ModelPreset { provider: s(" volc_ark "), model: s("doubao-seed-1-6-251015") },
        ModelPreset { provider: s("openai"), model: s(" gpt "), },
        ModelPreset { provider: s("openai "), model: s("gpt") },
        ModelPreset { provider: s(""), model: s("x") },
    ];
    let once = normalize_model_presets(&presets);
    assert_eq!(once.len(), 1);
    assert_eq!(once[0].provider, "openai");
    assert_eq!(once[0].model, "gpt");
    let twice = normalize_model_presets(&once);
    assert_eq!(twice.len(), once.len());
    assert_eq!(twice[0].provider, once[0].provider);
    assert_eq!(twice[0].model, once[0].model);
}

#[test]
fn correction_rules_normalize_once_and_for_all() {
    let rules = vec![
        CorrectionRule { source: s(" DocX "), target: s("docx"), note: s(" n ") },
        CorrectionRule { source: s("DocX"), target: s(" docx"), note: s("other") },
        CorrectionRule { source: s("a"), target: s(""), note: s("") },
    ];
    let once = normalize_correction_rules(&rules);
    assert_eq!(once, vec![CorrectionRule { source: s("DocX"), target: s("docx"), note: s("n") }]);
    assert_eq!(normalize_correction_rules(&once), once);
}

#[test]
fn dictionaries_normalize_once_and_for_all() {
    let entries = vec![
        DictionaryEntry { term: s(" Verus "), aliases: vec![s(" verus"), s("verus "), s("")], note: s(" v ") },
        DictionaryEntry { term: s("Verus"), aliases: vec![], note: s("dup") },
        DictionaryEntry { term: s(" "), aliases: vec![s("x")], note: s("") },
    ];
    let once = normalize_dictionary(&entries);
    assert_eq!(once, vec![DictionaryEntry { term: s("Verus"), aliases: vec![s("verus")], note: s("v") }]);
    assert_eq!(normalize_dictionary(&once), once);
}

#[test]
fn provider_settings_normalize_once_and_for_all() {
    let settings = vec![
        LlmProviderSettings { provider: s(" custom "), endpoint: s(" https://example.test/v1 "), api_format: s("responses"), api_key: s(" k ") },
        LlmProviderSettings { provider: s("custom"), endpoint: s("other"), api_format: s(""), api_key: s("") },
        LlmProviderSettings { provider: s(""), endpoint: s("x"), api_format: s(""), api_key: s("") },
    ];
    let once = normalize_provider_settings(&settings);
    assert_eq!(once.len(), 1);
    assert_eq!(once[0].provider, "custom");
    assert_eq!(once[0].endpoint, "https://example.test/v1");
    assert_eq!(once[0].api_key, "k");
    let twice = normalize_provider_settings(&once);
    assert_eq!(twice.len(), 1);
    assert_eq!(twice[0].provider, once[0].provider);
    assert_eq!(twice[0].endpoint, once[0].endpoint);
    assert_eq!(twice[0].api_format, once[0].api_format);
    assert_eq!(twice[0].api_key, once[0].api_key);
}

#[test]
fn overlay_offsets_stay_within_reach() {
    assert_eq!(boltscribe::config::clamped_overlay_offset(9000), 4000);
    assert_eq!(boltscribe::config::clamped_overlay_offset(-9000), -4000);
    assert_eq!(boltscribe::config::clamped_overlay_offset(-12), -12);
    assert_eq!(boltscribe::config::clamped_overlay_offset(i32::MIN), -4000);
}

#[test]
fn app_language_is_english_or_chinese() {
    assert_eq!(boltscribe::config::normalize_app_language("en"), "en-US");
    assert_eq!(boltscribe::config::normalize_app_language(" en-US "), "en-US");
    assert_eq!(boltscribe::config::normalize_app_language("fr"), "zh-CN");
    assert_eq!(boltscribe::config::normalize_app_language(""), "zh-CN");
}
