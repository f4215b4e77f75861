//! Configuration records and their normalisation rules.
//!
//! The records here are the parts of the application configuration that hold
//! no floating-point values; each `normalize` brings a record into the shape
//! in which it is stored.

use vstd::prelude::*;
use crate::keyboard_shortcut::{parse, parsed_shortcut};
use crate::text::{
    append_chars, concat, chars_eq_ignore_ascii_case, chars_of, eq_ignore_ascii_case, find_chars,
    find_first, join_seq, lemma_trim_idempotent, list_contains, owned, split_char, split_chars,
    str_eq, string_from, string_from_range, strs, to_lowercase, trim, trim_chars, trim_str,
    unicode_lowercase, views,
};

verus! {

broadcast use vstd::string::group_string_axioms;

/// An input device named in the priority list or the blacklist.
#[derive(Debug, Clone, PartialEq, Eq)]
pub struct AudioInputDeviceRef {
    pub id: String,
    pub name: String,
}

/// Lowering of the output volume while recording.
#[derive(Debug, Clone, PartialEq, Eq)]
pub struct OutputVolumeDuckingConfig {
    pub enabled: bool,
    pub mute_instead_of_reduce: bool,
    pub reduction_percent: u32,
    pub device_name_whitelist: Vec<String>,
    pub sound_source_hotkey_fallback_enabled: bool,
    pub sound_source_toggle_mute_hotkey: String,
}

/// Input device selection.
#[derive(Debug, Clone, PartialEq, Eq)]
pub struct AudioConfig {
    pub input_device_mode: String,
    pub input_device_id: Option<String>,
    pub input_device_name: Option<String>,
    pub input_device_priority: Vec<AudioInputDeviceRef>,
    pub input_device_blacklist: Vec<AudioInputDeviceRef>,
    pub output_volume_ducking: OutputVolumeDuckingConfig,
}

/// Speech recognition service settings.
#[derive(Debug, Clone, PartialEq, Eq)]
pub struct AsrConfig {
    pub provider: String,
    pub auth_mode: String,
    pub app_key: String,
    pub access_key: String,
    pub resource_id: String,
    pub stream_url: String,
    pub submit_url: String,
    pub query_url: String,
    pub language: String,
}

/// Per-provider connection settings of the correction model.
#[derive(Debug, Clone, PartialEq, Eq)]
pub struct LlmProviderSettings {
    pub provider: String,
    pub endpoint: String,
    pub api_format: String,
    pub api_key: String,
}

/// A provider and model raced against the main correction model.
#[derive(Debug, Clone, PartialEq, Eq)]
pub struct RaceModelTarget {
    pub provider: String,
    pub model: String,
}

/// Limits on stored history.
#[derive(Debug, Clone, PartialEq, Eq)]
pub struct RetentionConfig {
    pub max_history_records: usize,
    pub max_storage_bytes: u64,
}

/// Operating-system integration settings.
#[derive(Debug, Clone, PartialEq, Eq)]
pub struct SystemConfig {
    pub launch_at_login: bool,
    pub hide_dock_icon: bool,
    pub tray_left_click_recording_enabled: bool,
    pub fn_long_press_enabled: bool,
    pub fn_long_press_duration_ms: u64,
}

/// A named value substituted into the correction prompt.
#[derive(Debug, Clone, PartialEq, Eq)]
pub struct PromptVariable {
    pub name: String,
    pub value: String,
}

/// A saved provider/model pair.
#[derive(Debug, Clone, PartialEq, Eq)]
pub struct ModelPreset {
    pub provider: String,
    pub model: String,
}

/// A term of the (legacy) structured dictionary.
#[derive(Debug, Clone, PartialEq, Eq)]
pub struct DictionaryEntry {
    pub term: String,
    pub aliases: Vec<String>,
    pub note: String,
}

/// A replacement rule for a frequently misheard word.
#[derive(Debug, Clone, PartialEq, Eq)]
pub struct CorrectionRule {
    pub source: String,
    pub target: String,
    pub note: String,
}

/// Settings of the text correction step.
#[derive(Debug, Clone, PartialEq, Eq)]
pub struct CorrectionConfig {
    pub enabled: bool,
    pub user_requirements: String,
    pub prompt_template: String,
    pub variables: Vec<PromptVariable>,
    pub dictionary_text: String,
    pub disabled_dictionary_terms: Vec<String>,
    pub correction_rules_text: String,
    pub correction_rules: Vec<CorrectionRule>,
    pub dictionary: Vec<DictionaryEntry>,
}

/// Report of what an import found in the imported document.
#[derive(Debug, Clone, PartialEq, Eq)]
pub struct ConfigImportReport {
    pub format: Option<String>,
    pub version: Option<u32>,
    pub missing_fields: Vec<String>,
    pub unknown_fields: Vec<String>,
    pub invalid_fields: Vec<String>,
    pub notes: Vec<String>,
}

// ---------------------------------------------------------------------------
// Defaults
// ---------------------------------------------------------------------------

pub fn default_input_device_mode() -> (r: String)
    ensures
        r@ == "system_default"@,
{
    owned("system_default")
}

pub fn default_output_volume_ducking_reduction_percent() -> (r: u32)
    ensures
        r == 70,
{
    70
}

pub fn default_sound_source_toggle_mute_hotkey() -> (r: String)
    ensures
        r@ == "Cmd+Opt+Ctrl+A"@,
{
    owned("Cmd+Opt+Ctrl+A")
}

pub fn default_hotkey() -> (r: String)
    ensures
        r@ == "PageUp"@,
{
    owned("PageUp")
}

pub fn default_hotkey_slots() -> (r: Vec<String>)
    ensures
        strs(r@) == seq!["PageUp"@, Seq::<char>::empty()],
{
    let mut v: Vec<String> = Vec::new();
    v.push(default_hotkey());
    v.push(String::new());
    assert(strs(v@) =~= seq!["PageUp"@, Seq::<char>::empty()]);
    v
}

pub fn default_hotkey_enabled_slots() -> (r: Vec<bool>)
    ensures
        r@ == seq![true, false],
{
    let mut v: Vec<bool> = Vec::new();
    v.push(true);
    v.push(false);
    assert(v@ =~= seq![true, false]);
    v
}

pub fn default_tray_left_click_recording_enabled() -> (r: bool)
    ensures
        r,
{
    true
}

pub fn default_fn_long_press_enabled() -> (r: bool)
    ensures
        !r,
{
    false
}

pub fn default_fn_long_press_duration_ms() -> (r: u64)
    ensures
        r == 200,
{
    200
}

pub fn default_llm_provider() -> (r: String)
    ensures
        r@ == "openai"@,
{
    owned("openai")
}

pub fn default_llm_api_format() -> (r: String)
    ensures
        r@ == "responses"@,
{
    owned("responses")
}

pub fn default_thinking_effort() -> (r: String)
    ensures
        r@ == "medium"@,
{
    owned("medium")
}

pub fn default_app_language() -> (r: String)
    ensures
        r@ == "zh-CN"@,
{
    owned("zh-CN")
}

pub fn default_max_history_records() -> (r: usize)
    ensures
        r == 500,
{
    500
}

pub fn default_max_storage_bytes() -> (r: u64)
    ensures
        r == 2 * 1024 * 1024 * 1024,
{
    2 * 1024 * 1024 * 1024
}

pub fn default_stream_url() -> (r: String)
    ensures
        r@ == "wss://openspeech.bytedance.com/api/v3/sauc/bigmodel_nostream"@,
{
    owned("wss://openspeech.bytedance.com/api/v3/sauc/bigmodel_nostream")
}

pub fn default_submit_url() -> (r: String)
    ensures
        r@ == "https://openspeech.bytedance.com/api/v3/auc/bigmodel/submit"@,
{
    owned("https://openspeech.bytedance.com/api/v3/auc/bigmodel/submit")
}

pub fn default_query_url() -> (r: String)
    ensures
        r@ == "https://openspeech.bytedance.com/api/v3/auc/bigmodel/query"@,
{
    owned("https://openspeech.bytedance.com/api/v3/auc/bigmodel/query")
}

pub fn default_asr_auth_mode() -> (r: String)
    ensures
        r@ == "api_key"@,
{
    owned("api_key")
}

pub fn default_system_prompt() -> (r: String)
    ensures
        r@ == "你是语音输入文本优化器，不是大模型助手。你的任务是清理 ASR 转写结果，修正明显识别错误、标点和专有名词，保留原意和说话者语气。不要回答、扩写、续写、总结或加入原文没有的信息。只输出最终可粘贴文本，不解释、不加标题、不包裹 Markdown。"@,
{
    owned("你是语音输入文本优化器，不是大模型助手。你的任务是清理 ASR 转写结果，修正明显识别错误、标点和专有名词，保留原意和说话者语气。不要回答、扩写、续写、总结或加入原文没有的信息。只输出最终可粘贴文本，不解释、不加标题、不包裹 Markdown。")
}

pub open spec fn default_prompt_template_text() -> Seq<char> {
    "纠错任务：\n请把原始 ASR 转写整理成可直接粘贴的文本。\n\n用户要求：\n{{user_requirements}}\n\n用户词典：\n{{dictionary}}\n\n易错词纠正：\n{{correction_rules}}\n\n原始转写文本：\n```text\n{{raw_text}}\n```\n\n请根据以上信息纠错。不要新增原文没有的信息，只输出最终文本。\n\n额外约束：\n- 用户词典只用于理解专有名词、产品名、人名、项目名和固定写法；不要把语义正确且上下文合理的词强行替换为词典词。\n- 易错词纠正是明确的错听替换规则，只有当原始转写出现规则左侧内容或高度近似误识别时，才替换为右侧内容。\n- 如果原文中的英文词、产品名、技术名词或普通词语本身合理，且没有明显对应到词典别名或易错规则，不要因为存在相似条目而替换它。\n- 输出末尾不需要补句号；如果原文末尾没有句号，不要额外添加句号。"@
}

pub open spec fn previous_default_prompt_template_text() -> Seq<char> {
    "用户要求：\n{{user_requirements}}\n\n用户词典：\n{{dictionary}}\n\n原始转写文本：\n```text\n{{raw_text}}\n```\n\n请根据用户要求和用户词典纠错。不要新增原文没有的信息，只输出最终文本。"@
}

pub open spec fn legacy_default_prompt_template_text() -> Seq<char> {
    "用户要求：\n{{user_requirements}}\n\n用户词典：\n{{dictionary}}\n\n原始转写文本：\n{{raw_text}}\n\n请根据用户要求和用户词典纠错。不要新增原文没有的信息，只输出最终文本。"@
}

/// The prompt template of a new configuration.
pub fn default_prompt_template() -> (r: String)
    ensures
        r@ == default_prompt_template_text(),
{
    owned("纠错任务：\n请把原始 ASR 转写整理成可直接粘贴的文本。\n\n用户要求：\n{{user_requirements}}\n\n用户词典：\n{{dictionary}}\n\n易错词纠正：\n{{correction_rules}}\n\n原始转写文本：\n```text\n{{raw_text}}\n```\n\n请根据以上信息纠错。不要新增原文没有的信息，只输出最终文本。\n\n额外约束：\n- 用户词典只用于理解专有名词、产品名、人名、项目名和固定写法；不要把语义正确且上下文合理的词强行替换为词典词。\n- 易错词纠正是明确的错听替换规则，只有当原始转写出现规则左侧内容或高度近似误识别时，才替换为右侧内容。\n- 如果原文中的英文词、产品名、技术名词或普通词语本身合理，且没有明显对应到词典别名或易错规则，不要因为存在相似条目而替换它。\n- 输出末尾不需要补句号；如果原文末尾没有句号，不要额外添加句号。")
}

/// The template that an earlier release used as its default.
pub fn previous_default_prompt_template() -> (r: String)
    ensures
        r@ == previous_default_prompt_template_text(),
{
    owned("用户要求：\n{{user_requirements}}\n\n用户词典：\n{{dictionary}}\n\n原始转写文本：\n```text\n{{raw_text}}\n```\n\n请根据用户要求和用户词典纠错。不要新增原文没有的信息，只输出最终文本。")
}

/// The template that the first releases used as their default.
pub fn legacy_default_prompt_template() -> (r: String)
    ensures
        r@ == legacy_default_prompt_template_text(),
{
    owned("用户要求：\n{{user_requirements}}\n\n用户词典：\n{{dictionary}}\n\n原始转写文本：\n{{raw_text}}\n\n请根据用户要求和用户词典纠错。不要新增原文没有的信息，只输出最终文本。")
}


// ---------------------------------------------------------------------------
// Lists of strings
// ---------------------------------------------------------------------------

/// Trimmed, non-empty items in first-seen order, each kept once.
pub open spec fn normalized_list(items: Seq<Seq<char>>) -> Seq<Seq<char>>
    decreases items.len(),
{
    if items.len() == 0 {
        seq![]
    } else {
        let prev = normalized_list(items.drop_last());
        let v = trim(items.last());
        if v.len() == 0 || prev.contains(v) {
            prev
        } else {
            prev.push(v)
        }
    }
}

/// A list whose items are trimmed, non-empty and pairwise distinct.
pub open spec fn is_clean_list(items: Seq<Seq<char>>) -> bool {
    &&& forall|k: int| 0 <= k < items.len() ==> trim(#[trigger] items[k]) == items[k] && items[k].len() > 0
    &&& forall|a: int, b: int| 0 <= a < b < items.len() ==> items[a] != items[b]
}

/// What `normalize_string_list` returns is a clean list.
pub proof fn lemma_normalized_list_clean(items: Seq<Seq<char>>)
    ensures
        is_clean_list(normalized_list(items)),
    decreases items.len(),
{
    if items.len() > 0 {
        lemma_normalized_list_clean(items.drop_last());
        lemma_trim_idempotent(items.last());
    }
}

/// A clean list is left as it is by normalisation.
pub proof fn lemma_normalized_list_fixes_clean(items: Seq<Seq<char>>)
    requires
        is_clean_list(items),
    ensures
        normalized_list(items) == items,
    decreases items.len(),
{
    if items.len() > 0 {
        let prev = items.drop_last();
        assert(is_clean_list(prev));
        lemma_normalized_list_fixes_clean(prev);
        let v = items.last();
        assert(trim(v) == v && v.len() > 0);
        if prev.contains(v) {
            let k = choose|k: int| 0 <= k < prev.len() && prev[k] == v;
            assert(items[k] == items[items.len() - 1]);
        }
        assert(prev.push(v) =~= items);
    }
}

/// Normalising a list of strings twice gives what normalising once gives.
pub proof fn law_normalize_string_list_idempotent(items: Seq<Seq<char>>)
    ensures
        normalized_list(normalized_list(items)) == normalized_list(items),
{
    lemma_normalized_list_clean(items);
    lemma_normalized_list_fixes_clean(normalized_list(items));
}

/// Trims each item, drops empty ones and keeps the first of equal ones.
pub fn normalize_string_list(items: &Vec<String>) -> (r: Vec<String>)
    ensures
        strs(r@) == normalized_list(strs(items@)),
{
    let mut r: Vec<String> = Vec::new();
    let mut i: usize = 0;
    while i < items.len()
        invariant
            i <= items.len(),
            strs(r@) == normalized_list(strs(items@.take(i as int))),
        decreases items.len() - i,
    {
        let v = trim_str(items[i].as_str());
        let empty = chars_of(v.as_str()).len() == 0;
        proof {
            assert(strs(items@.take(i + 1)).drop_last() =~= strs(items@.take(i as int)));
            assert(strs(items@.take(i + 1)).last() == items@[i as int]@);
        }
        if !empty && !list_contains(&r, v.as_str()) {
            r.push(v);
            assert(strs(r@) =~= strs(r@.drop_last()).push(v@));
        }
        i = i + 1;
    }
    assert(items@.take(items.len() as int) =~= items@);
    r
}

// ---------------------------------------------------------------------------
// Model lists
// ---------------------------------------------------------------------------

/// Models that the Volcengine Ark service no longer offers.
pub open spec fn is_removed_volc_model_spec(model: Seq<char>) -> bool {
    trim(model) == "doubao-seed-2-0-pro-260428"@ || trim(model) == "doubao-seed-1-6-251015"@
}

/// Whether a Volcengine Ark model was withdrawn.
pub fn is_removed_volc_model(model: &str) -> (r: bool)
    ensures
        r == is_removed_volc_model_spec(model@),
{
    let m = trim_str(model);
    str_eq(m.as_str(), "doubao-seed-2-0-pro-260428") || str_eq(m.as_str(), "doubao-seed-1-6-251015")
}

/// Whether a provider/model pair is dropped from preset and race lists.
pub open spec fn pair_rejected(provider: Seq<char>, model: Seq<char>) -> bool {
    provider.len() == 0 || model.len() == 0 || (provider == "volc_ark"@
        && is_removed_volc_model_spec(model))
}

/// Trimmed provider/model pairs, rejected and repeated pairs dropped.
pub open spec fn normalized_pairs(items: Seq<(Seq<char>, Seq<char>)>) -> Seq<(Seq<char>, Seq<char>)>
    decreases items.len(),
{
    if items.len() == 0 {
        seq![]
    } else {
        let prev = normalized_pairs(items.drop_last());
        let p = trim(items.last().0);
        let m = trim(items.last().1);
        if pair_rejected(p, m) || prev.contains((p, m)) {
            prev
        } else {
            prev.push((p, m))
        }
    }
}

/// Pairs that are trimmed, kept and pairwise distinct.
pub open spec fn is_clean_pairs(items: Seq<(Seq<char>, Seq<char>)>) -> bool {
    &&& forall|k: int| 0 <= k < items.len() ==> trim((#[trigger] items[k]).0) == items[k].0
        && trim(items[k].1) == items[k].1 && !pair_rejected(items[k].0, items[k].1)
    &&& forall|a: int, b: int| 0 <= a < b < items.len() ==> items[a] != items[b]
}

proof fn lemma_normalized_pairs_clean(items: Seq<(Seq<char>, Seq<char>)>)
    ensures
        is_clean_pairs(normalized_pairs(items)),
    decreases items.len(),
{
    if items.len() > 0 {
        lemma_normalized_pairs_clean(items.drop_last());
        lemma_trim_idempotent(items.last().0);
        lemma_trim_idempotent(items.last().1);
    }
}

proof fn lemma_normalized_pairs_fixes_clean(items: Seq<(Seq<char>, Seq<char>)>)
    requires
        is_clean_pairs(items),
    ensures
        normalized_pairs(items) == items,
    decreases items.len(),
{
    if items.len() > 0 {
        let prev = items.drop_last();
        assert(is_clean_pairs(prev));
        lemma_normalized_pairs_fixes_clean(prev);
        let v = items.last();
        assert(trim(v.0) == v.0 && trim(v.1) == v.1 && !pair_rejected(v.0, v.1));
        if prev.contains(v) {
            let k = choose|k: int| 0 <= k < prev.len() && prev[k] == v;
            assert(items[k] == items[items.len() - 1]);
        }
        assert(prev.push(v) =~= items);
    }
}

/// Normalising model presets (or race targets) twice gives what normalising
/// once gives.
pub proof fn law_normalize_model_pairs_idempotent(items: Seq<(Seq<char>, Seq<char>)>)
    ensures
        normalized_pairs(normalized_pairs(items)) == normalized_pairs(items),
{
    lemma_normalized_pairs_clean(items);
    lemma_normalized_pairs_fixes_clean(normalized_pairs(items));
}

pub open spec fn preset_views(v: Seq<ModelPreset>) -> Seq<(Seq<char>, Seq<char>)> {
    v.map_values(|x: ModelPreset| (x.provider@, x.model@))
}

pub open spec fn target_views(v: Seq<RaceModelTarget>) -> Seq<(Seq<char>, Seq<char>)> {
    v.map_values(|x: RaceModelTarget| (x.provider@, x.model@))
}

fn pair_rejected_exec(provider: &str, model: &str) -> (r: bool)
    ensures
        r == pair_rejected(provider@, model@),
{
    chars_of(provider).len() == 0 || chars_of(model).len() == 0 || (str_eq(provider, "volc_ark")
        && is_removed_volc_model(model))
}

fn presets_contain(list: &Vec<ModelPreset>, p: &str, m: &str) -> (r: bool)
    ensures
        r == preset_views(list@).contains((p@, m@)),
{
    let mut i: usize = 0;
    while i < list.len()
        invariant
            i <= list.len(),
            forall|k: int| 0 <= k < i ==> preset_views(list@)[k] != (p@, m@),
        decreases list.len() - i,
    {
        if str_eq(list[i].provider.as_str(), p) && str_eq(list[i].model.as_str(), m) {
            assert(preset_views(list@)[i as int] == (p@, m@));
            return true;
        }
        i = i + 1;
    }
    false
}

fn targets_contain(list: &Vec<RaceModelTarget>, p: &str, m: &str) -> (r: bool)
    ensures
        r == target_views(list@).contains((p@, m@)),
{
    let mut i: usize = 0;
    while i < list.len()
        invariant
            i <= list.len(),
            forall|k: int| 0 <= k < i ==> target_views(list@)[k] != (p@, m@),
        decreases list.len() - i,
    {
        if str_eq(list[i].provider.as_str(), p) && str_eq(list[i].model.as_str(), m) {
            assert(target_views(list@)[i as int] == (p@, m@));
            return true;
        }
        i = i + 1;
    }
    false
}

/// Trims presets, drops incomplete, withdrawn and repeated ones.
pub fn normalize_model_presets(presets: &Vec<ModelPreset>) -> (r: Vec<ModelPreset>)
    ensures
        preset_views(r@) == normalized_pairs(preset_views(presets@)),
{
    let mut r: Vec<ModelPreset> = Vec::new();
    let mut i: usize = 0;
    while i < presets.len()
        invariant
            i <= presets.len(),
            preset_views(r@) == normalized_pairs(preset_views(presets@.take(i as int))),
        decreases presets.len() - i,
    {
        let p = trim_str(presets[i].provider.as_str());
        let m = trim_str(presets[i].model.as_str());
        proof {
            assert(preset_views(presets@.take(i + 1)).drop_last() =~= preset_views(presets@.take(i as int)));
            assert(preset_views(presets@.take(i + 1)).last() == (presets@[i as int].provider@, presets@[i as int].model@));
        }
        if !pair_rejected_exec(p.as_str(), m.as_str()) && !presets_contain(&r, p.as_str(), m.as_str()) {
            let ghost pv = (p@, m@);
            r.push(ModelPreset { provider: p, model: m });
            assert(preset_views(r@) =~= preset_views(r@.drop_last()).push(pv));
        }
        i = i + 1;
    }
    assert(presets@.take(presets.len() as int) =~= presets@);
    r
}

/// Trims race targets, drops incomplete, withdrawn and repeated ones.
pub fn normalize_race_targets(targets: &Vec<RaceModelTarget>) -> (r: Vec<RaceModelTarget>)
    ensures
        target_views(r@) == normalized_pairs(target_views(targets@)),
{
    let mut r: Vec<RaceModelTarget> = Vec::new();
    let mut i: usize = 0;
    while i < targets.len()
        invariant
            i <= targets.len(),
            target_views(r@) == normalized_pairs(target_views(targets@.take(i as int))),
        decreases targets.len() - i,
    {
        let p = trim_str(targets[i].provider.as_str());
        let m = trim_str(targets[i].model.as_str());
        proof {
            assert(target_views(targets@.take(i + 1)).drop_last() =~= target_views(targets@.take(i as int)));
            assert(target_views(targets@.take(i + 1)).last() == (targets@[i as int].provider@, targets@[i as int].model@));
        }
        if !pair_rejected_exec(p.as_str(), m.as_str()) && !targets_contain(&r, p.as_str(), m.as_str()) {
            let ghost pv = (p@, m@);
            r.push(RaceModelTarget { provider: p, model: m });
            assert(target_views(r@) =~= target_views(r@.drop_last()).push(pv));
        }
        i = i + 1;
    }
    assert(targets@.take(targets.len() as int) =~= targets@);
    r
}


// ---------------------------------------------------------------------------
// Provider settings
// ---------------------------------------------------------------------------

pub open spec fn settings_views(v: Seq<LlmProviderSettings>) -> Seq<(Seq<char>, Seq<char>, Seq<char>, Seq<char>)> {
    v.map_values(|x: LlmProviderSettings| (x.provider@, x.endpoint@, x.api_format@, x.api_key@))
}

pub open spec fn has_provider(v: Seq<(Seq<char>, Seq<char>, Seq<char>, Seq<char>)>, p: Seq<char>) -> bool {
    exists|k: int| 0 <= k < v.len() && (#[trigger] v[k]).0 == p
}

/// Trimmed settings, one per provider (the first), those without a provider dropped.
pub open spec fn normalized_settings(items: Seq<LlmProviderSettings>) -> Seq<(Seq<char>, Seq<char>, Seq<char>, Seq<char>)>
    decreases items.len(),
{
    if items.len() == 0 {
        seq![]
    } else {
        let prev = normalized_settings(items.drop_last());
        let x = items.last();
        let p = trim(x.provider@);
        if p.len() == 0 || has_provider(prev, p) {
            prev
        } else {
            prev.push((p, trim(x.endpoint@), trim(x.api_format@), trim(x.api_key@)))
        }
    }
}

/// Provider settings in normal form: trimmed, one per provider.
pub open spec fn is_clean_settings(items: Seq<(Seq<char>, Seq<char>, Seq<char>, Seq<char>)>) -> bool {
    forall|k: int| 0 <= k < items.len() ==> {
        &&& trim((#[trigger] items[k]).0) == items[k].0 && items[k].0.len() > 0
        &&& trim(items[k].1) == items[k].1
        &&& trim(items[k].2) == items[k].2
        &&& trim(items[k].3) == items[k].3
        &&& !has_provider(items.take(k), items[k].0)
    }
}

proof fn lemma_normalized_settings_clean(items: Seq<LlmProviderSettings>)
    ensures
        is_clean_settings(normalized_settings(items)),
    decreases items.len(),
{
    if items.len() > 0 {
        lemma_normalized_settings_clean(items.drop_last());
        let x = items.last();
        lemma_trim_idempotent(x.provider@);
        lemma_trim_idempotent(x.endpoint@);
        lemma_trim_idempotent(x.api_format@);
        lemma_trim_idempotent(x.api_key@);
        let prev = normalized_settings(items.drop_last());
        let r = normalized_settings(items);
        if r.len() == prev.len() + 1 {
            assert forall|k: int| 0 <= k < r.len() implies {
                &&& trim((#[trigger] r[k]).0) == r[k].0 && r[k].0.len() > 0
                &&& trim(r[k].1) == r[k].1
                &&& trim(r[k].2) == r[k].2
                &&& trim(r[k].3) == r[k].3
                &&& !has_provider(r.take(k), r[k].0)
            } by {
                if k < prev.len() {
                    assert(r.take(k) =~= prev.take(k));
                } else {
                    assert(r.take(k) =~= prev);
                }
            }
        }
    }
}

proof fn lemma_normalized_settings_fixes_clean(items: Seq<LlmProviderSettings>)
    requires
        is_clean_settings(settings_views(items)),
    ensures
        normalized_settings(items) == settings_views(items),
    decreases items.len(),
{
    if items.len() > 0 {
        let prev = items.drop_last();
        let v = settings_views(items);
        assert(settings_views(prev) =~= v.drop_last());
        assert forall|k: int| 0 <= k < settings_views(prev).len() implies {
            &&& trim((#[trigger] settings_views(prev)[k]).0) == settings_views(prev)[k].0 && settings_views(prev)[k].0.len() > 0
            &&& trim(settings_views(prev)[k].1) == settings_views(prev)[k].1
            &&& trim(settings_views(prev)[k].2) == settings_views(prev)[k].2
            &&& trim(settings_views(prev)[k].3) == settings_views(prev)[k].3
            &&& !has_provider(settings_views(prev).take(k), settings_views(prev)[k].0)
        } by {
            assert(v[k] == settings_views(prev)[k]);
            assert(v.take(k) =~= settings_views(prev).take(k));
        }
        lemma_normalized_settings_fixes_clean(prev);
        let n = items.len() - 1;
        let x = items.last();
        assert(v[n] == (x.provider@, x.endpoint@, x.api_format@, x.api_key@));
        assert(v.take(n) =~= settings_views(prev));
        assert(settings_views(prev).push(v[n]) =~= v);
    }
}

/// Normalising provider settings that are already normalised changes nothing.
pub proof fn law_normalize_provider_settings_idempotent(items: Seq<LlmProviderSettings>, normalized: Seq<LlmProviderSettings>)
    requires
        settings_views(normalized) == normalized_settings(items),
    ensures
        normalized_settings(normalized) == settings_views(normalized),
{
    lemma_normalized_settings_clean(items);
    lemma_normalized_settings_fixes_clean(normalized);
}

/// Normalises the per-provider settings list.
pub fn normalize_provider_settings(settings: &Vec<LlmProviderSettings>) -> (r: Vec<LlmProviderSettings>)
    ensures
        settings_views(r@) == normalized_settings(settings@),
{
    let mut r: Vec<LlmProviderSettings> = Vec::new();
    let mut i: usize = 0;
    while i < settings.len()
        invariant
            i <= settings.len(),
            settings_views(r@) == normalized_settings(settings@.take(i as int)),
        decreases settings.len() - i,
    {
        let p = trim_str(settings[i].provider.as_str());
        proof {
            assert(settings@.take(i + 1).drop_last() =~= settings@.take(i as int));
        }
        let mut found = false;
        let mut k: usize = 0;
        while k < r.len()
            invariant
                k <= r.len(),
                !found ==> forall|j: int| 0 <= j < k ==> settings_views(r@)[j].0 != p@,
                found ==> has_provider(settings_views(r@), p@),
            decreases r.len() - k,
        {
            if str_eq(r[k].provider.as_str(), p.as_str()) {
                assert(settings_views(r@)[k as int].0 == p@);
                found = true;
            }
            k = k + 1;
        }
        if chars_of(p.as_str()).len() != 0 && !found {
            let e = trim_str(settings[i].endpoint.as_str());
            let f = trim_str(settings[i].api_format.as_str());
            let a = trim_str(settings[i].api_key.as_str());
            let ghost v = (p@, e@, f@, a@);
            r.push(LlmProviderSettings { provider: p, endpoint: e, api_format: f, api_key: a });
            assert(settings_views(r@) =~= settings_views(r@.drop_last()).push(v));
        }
        i = i + 1;
    }
    assert(settings@.take(settings.len() as int) =~= settings@);
    r
}

// ---------------------------------------------------------------------------
// Dictionary and correction rules
// ---------------------------------------------------------------------------

pub open spec fn entry_views(v: Seq<DictionaryEntry>) -> Seq<(Seq<char>, Seq<Seq<char>>, Seq<char>)> {
    v.map_values(|x: DictionaryEntry| (x.term@, strs(x.aliases@), x.note@))
}

pub open spec fn has_term(v: Seq<(Seq<char>, Seq<Seq<char>>, Seq<char>)>, t: Seq<char>) -> bool {
    exists|k: int| 0 <= k < v.len() && (#[trigger] v[k]).0 == t
}

/// Entries with trimmed terms, aliases and notes; one entry per term.
pub open spec fn normalized_dictionary(items: Seq<DictionaryEntry>) -> Seq<(Seq<char>, Seq<Seq<char>>, Seq<char>)>
    decreases items.len(),
{
    if items.len() == 0 {
        seq![]
    } else {
        let prev = normalized_dictionary(items.drop_last());
        let x = items.last();
        let t = trim(x.term@);
        if t.len() == 0 || has_term(prev, t) {
            prev
        } else {
            prev.push((t, normalized_list(strs(x.aliases@)), trim(x.note@)))
        }
    }
}

/// Normalises the structured dictionary.
pub fn normalize_dictionary(dictionary: &Vec<DictionaryEntry>) -> (r: Vec<DictionaryEntry>)
    ensures
        entry_views(r@) == normalized_dictionary(dictionary@),
{
    let mut r: Vec<DictionaryEntry> = Vec::new();
    let mut i: usize = 0;
    while i < dictionary.len()
        invariant
            i <= dictionary.len(),
            entry_views(r@) == normalized_dictionary(dictionary@.take(i as int)),
        decreases dictionary.len() - i,
    {
        let t = trim_str(dictionary[i].term.as_str());
        proof {
            assert(dictionary@.take(i + 1).drop_last() =~= dictionary@.take(i as int));
        }
        let mut found = false;
        let mut k: usize = 0;
        while k < r.len()
            invariant
                k <= r.len(),
                !found ==> forall|j: int| 0 <= j < k ==> entry_views(r@)[j].0 != t@,
                found ==> has_term(entry_views(r@), t@),
            decreases r.len() - k,
        {
            if str_eq(r[k].term.as_str(), t.as_str()) {
                assert(entry_views(r@)[k as int].0 == t@);
                found = true;
            }
            k = k + 1;
        }
        if chars_of(t.as_str()).len() != 0 && !found {
            let aliases = normalize_string_list(&dictionary[i].aliases);
            let note = trim_str(dictionary[i].note.as_str());
            let ghost v = (t@, strs(aliases@), note@);
            r.push(DictionaryEntry { term: t, aliases, note });
            assert(entry_views(r@) =~= entry_views(r@.drop_last()).push(v));
        }
        i = i + 1;
    }
    assert(dictionary@.take(dictionary.len() as int) =~= dictionary@);
    r
}

/// A dictionary in normal form: trimmed terms and notes, clean alias lists,
/// one entry per term.
pub open spec fn is_clean_dictionary(items: Seq<(Seq<char>, Seq<Seq<char>>, Seq<char>)>) -> bool {
    forall|k: int| 0 <= k < items.len() ==> {
        &&& trim((#[trigger] items[k]).0) == items[k].0 && items[k].0.len() > 0
        &&& is_clean_list(items[k].1)
        &&& trim(items[k].2) == items[k].2
        &&& !has_term(items.take(k), items[k].0)
    }
}

proof fn lemma_normalized_dictionary_clean(items: Seq<DictionaryEntry>)
    ensures
        is_clean_dictionary(normalized_dictionary(items)),
    decreases items.len(),
{
    if items.len() > 0 {
        lemma_normalized_dictionary_clean(items.drop_last());
        let x = items.last();
        lemma_trim_idempotent(x.term@);
        lemma_trim_idempotent(x.note@);
        lemma_normalized_list_clean(strs(x.aliases@));
        let prev = normalized_dictionary(items.drop_last());
        let r = normalized_dictionary(items);
        if r.len() == prev.len() + 1 {
            assert forall|k: int| 0 <= k < r.len() implies {
                &&& trim((#[trigger] r[k]).0) == r[k].0 && r[k].0.len() > 0
                &&& is_clean_list(r[k].1)
                &&& trim(r[k].2) == r[k].2
                &&& !has_term(r.take(k), r[k].0)
            } by {
                if k < prev.len() {
                    assert(r.take(k) =~= prev.take(k));
                } else {
                    assert(r.take(k) =~= prev);
                }
            }
        }
    }
}

proof fn lemma_normalized_dictionary_fixes_clean(items: Seq<DictionaryEntry>)
    requires
        is_clean_dictionary(entry_views(items)),
    ensures
        normalized_dictionary(items) == entry_views(items),
    decreases items.len(),
{
    if items.len() > 0 {
        let prev = items.drop_last();
        let v = entry_views(items);
        assert(entry_views(prev) =~= v.drop_last());
        assert forall|k: int| 0 <= k < entry_views(prev).len() implies {
            &&& trim((#[trigger] entry_views(prev)[k]).0) == entry_views(prev)[k].0 && entry_views(prev)[k].0.len() > 0
            &&& is_clean_list(entry_views(prev)[k].1)
            &&& trim(entry_views(prev)[k].2) == entry_views(prev)[k].2
            &&& !has_term(entry_views(prev).take(k), entry_views(prev)[k].0)
        } by {
            assert(v[k] == entry_views(prev)[k]);
            assert(v.take(k) =~= entry_views(prev).take(k));
        }
        lemma_normalized_dictionary_fixes_clean(prev);
        let n = items.len() - 1;
        let x = items.last();
        assert(v[n] == (x.term@, strs(x.aliases@), x.note@));
        lemma_normalized_list_fixes_clean(strs(x.aliases@));
        assert(v.take(n) =~= entry_views(prev));
        assert(entry_views(prev).push(v[n]) =~= v);
    }
}

/// Normalising a dictionary that is already normalised changes nothing.
pub proof fn law_normalize_dictionary_idempotent(items: Seq<DictionaryEntry>, normalized: Seq<DictionaryEntry>)
    requires
        entry_views(normalized) == normalized_dictionary(items),
    ensures
        normalized_dictionary(normalized) == entry_views(normalized),
{
    lemma_normalized_dictionary_clean(items);
    lemma_normalized_dictionary_fixes_clean(normalized);
}

pub open spec fn rule_views(v: Seq<CorrectionRule>) -> Seq<(Seq<char>, Seq<char>, Seq<char>)> {
    v.map_values(|x: CorrectionRule| (x.source@, x.target@, x.note@))
}

pub open spec fn has_rule(v: Seq<(Seq<char>, Seq<char>, Seq<char>)>, s: Seq<char>, t: Seq<char>) -> bool {
    exists|k: int| 0 <= k < v.len() && (#[trigger] v[k]).0 == s && v[k].1 == t
}

/// Rules with trimmed fields; incomplete rules dropped; one rule per source/target pair.
pub open spec fn normalized_rules(items: Seq<CorrectionRule>) -> Seq<(Seq<char>, Seq<char>, Seq<char>)>
    decreases items.len(),
{
    if items.len() == 0 {
        seq![]
    } else {
        let prev = normalized_rules(items.drop_last());
        let x = items.last();
        let s = trim(x.source@);
        let t = trim(x.target@);
        if s.len() == 0 || t.len() == 0 || has_rule(prev, s, t) {
            prev
        } else {
            prev.push((s, t, trim(x.note@)))
        }
    }
}

/// Normalises the correction rules.
pub fn normalize_correction_rules(rules: &Vec<CorrectionRule>) -> (r: Vec<CorrectionRule>)
    ensures
        rule_views(r@) == normalized_rules(rules@),
{
    let mut r: Vec<CorrectionRule> = Vec::new();
    let mut i: usize = 0;
    while i < rules.len()
        invariant
            i <= rules.len(),
            rule_views(r@) == normalized_rules(rules@.take(i as int)),
        decreases rules.len() - i,
    {
        let src = trim_str(rules[i].source.as_str());
        let tgt = trim_str(rules[i].target.as_str());
        proof {
            assert(rules@.take(i + 1).drop_last() =~= rules@.take(i as int));
        }
        let mut found = false;
        let mut k: usize = 0;
        while k < r.len()
            invariant
                k <= r.len(),
                !found ==> forall|j: int| 0 <= j < k ==> !(rule_views(r@)[j].0 == src@ && rule_views(r@)[j].1 == tgt@),
                found ==> has_rule(rule_views(r@), src@, tgt@),
            decreases r.len() - k,
        {
            if str_eq(r[k].source.as_str(), src.as_str()) && str_eq(r[k].target.as_str(), tgt.as_str()) {
                assert(rule_views(r@)[k as int].0 == src@);
                found = true;
            }
            k = k + 1;
        }
        if chars_of(src.as_str()).len() != 0 && chars_of(tgt.as_str()).len() != 0 && !found {
            let note = trim_str(rules[i].note.as_str());
            let ghost v = (src@, tgt@, note@);
            r.push(CorrectionRule { source: src, target: tgt, note });
            assert(rule_views(r@) =~= rule_views(r@.drop_last()).push(v));
        }
        i = i + 1;
    }
    assert(rules@.take(rules.len() as int) =~= rules@);
    r
}


/// Rules in normal form: trimmed, complete, none repeating the source and
/// target of an earlier one.
pub open spec fn is_clean_rules(items: Seq<(Seq<char>, Seq<char>, Seq<char>)>) -> bool {
    forall|k: int| 0 <= k < items.len() ==> {
        &&& trim((#[trigger] items[k]).0) == items[k].0 && items[k].0.len() > 0
        &&& trim(items[k].1) == items[k].1 && items[k].1.len() > 0
        &&& trim(items[k].2) == items[k].2
        &&& !has_rule(items.take(k), items[k].0, items[k].1)
    }
}

proof fn lemma_normalized_rules_clean(items: Seq<CorrectionRule>)
    ensures
        is_clean_rules(normalized_rules(items)),
    decreases items.len(),
{
    if items.len() > 0 {
        lemma_normalized_rules_clean(items.drop_last());
        let x = items.last();
        lemma_trim_idempotent(x.source@);
        lemma_trim_idempotent(x.target@);
        lemma_trim_idempotent(x.note@);
        let prev = normalized_rules(items.drop_last());
        let r = normalized_rules(items);
        if r.len() == prev.len() + 1 {
            assert forall|k: int| 0 <= k < r.len() implies {
                &&& trim((#[trigger] r[k]).0) == r[k].0 && r[k].0.len() > 0
                &&& trim(r[k].1) == r[k].1 && r[k].1.len() > 0
                &&& trim(r[k].2) == r[k].2
                &&& !has_rule(r.take(k), r[k].0, r[k].1)
            } by {
                if k < prev.len() {
                    assert(r.take(k) =~= prev.take(k));
                } else {
                    assert(r.take(k) =~= prev);
                }
            }
        }
    }
}

proof fn lemma_normalized_rules_fixes_clean(items: Seq<CorrectionRule>)
    requires
        is_clean_rules(rule_views(items)),
    ensures
        normalized_rules(items) == rule_views(items),
    decreases items.len(),
{
    if items.len() > 0 {
        let prev = items.drop_last();
        let v = rule_views(items);
        assert(rule_views(prev) =~= v.drop_last());
        assert forall|k: int| 0 <= k < rule_views(prev).len() implies {
            &&& trim((#[trigger] rule_views(prev)[k]).0) == rule_views(prev)[k].0 && rule_views(prev)[k].0.len() > 0
            &&& trim(rule_views(prev)[k].1) == rule_views(prev)[k].1 && rule_views(prev)[k].1.len() > 0
            &&& trim(rule_views(prev)[k].2) == rule_views(prev)[k].2
            &&& !has_rule(rule_views(prev).take(k), rule_views(prev)[k].0, rule_views(prev)[k].1)
        } by {
            assert(v[k] == rule_views(prev)[k]);
            assert(v.take(k) =~= rule_views(prev).take(k));
        }
        lemma_normalized_rules_fixes_clean(prev);
        let n = items.len() - 1;
        assert(v[n] == (items.last().source@, items.last().target@, items.last().note@));
        assert(v.take(n) =~= rule_views(prev));
        assert(rule_views(prev).push(v[n]) =~= v);
    }
}

/// Normalising correction rules that are already normalised changes nothing.
pub proof fn law_normalize_correction_rules_idempotent(items: Seq<CorrectionRule>, normalized: Seq<CorrectionRule>)
    requires
        rule_views(normalized) == normalized_rules(items),
    ensures
        normalized_rules(normalized) == rule_views(normalized),
{
    lemma_normalized_rules_clean(items);
    lemma_normalized_rules_fixes_clean(normalized);
}

// ---------------------------------------------------------------------------
// Input device references
// ---------------------------------------------------------------------------

/// Whether a reference `(id, name)` designates the device `(dev_id, dev_name)`:
/// same non-empty id, or same non-empty name ignoring ASCII case.
pub open spec fn ref_matches(id: Seq<char>, name: Seq<char>, dev_id: Seq<char>, dev_name: Seq<char>) -> bool {
    (id.len() > 0 && id == dev_id) || (name.len() > 0 && eq_ignore_ascii_case(name, dev_name))
}

impl AudioInputDeviceRef {
    /// Whether this reference designates the device with the given id and name.
    pub fn matches_device(&self, id: &str, name: &str) -> (r: bool)
        ensures
            r == ref_matches(self.id@, self.name@, id@, name@),
    {
        let own_id = chars_of(self.id.as_str());
        let own_name = chars_of(self.name.as_str());
        let dev_id = chars_of(id);
        let dev_name = chars_of(name);
        (own_id.len() != 0 && str_eq(self.id.as_str(), id)) || (own_name.len() != 0
            && chars_eq_ignore_ascii_case(&own_name, &dev_name))
    }

    /// Whether this reference designates the device that `other` designates.
    pub fn matches_ref(&self, other: &Self) -> (r: bool)
        ensures
            r == ref_matches(self.id@, self.name@, other.id@, other.name@),
    {
        self.matches_device(other.id.as_str(), other.name.as_str())
    }
}

pub open spec fn ref_views(v: Seq<AudioInputDeviceRef>) -> Seq<(Seq<char>, Seq<char>)> {
    v.map_values(|x: AudioInputDeviceRef| (x.id@, x.name@))
}

pub open spec fn some_ref_matches(v: Seq<(Seq<char>, Seq<char>)>, id: Seq<char>, name: Seq<char>) -> bool {
    exists|k: int| 0 <= k < v.len() && ref_matches((#[trigger] v[k]).0, v[k].1, id, name)
}

/// References with trimmed id and name; empty ones and ones that an earlier
/// kept reference already designates are dropped.
pub open spec fn normalized_refs(items: Seq<(Seq<char>, Seq<char>)>) -> Seq<(Seq<char>, Seq<char>)>
    decreases items.len(),
{
    if items.len() == 0 {
        seq![]
    } else {
        let prev = normalized_refs(items.drop_last());
        let id = trim(items.last().0);
        let name = trim(items.last().1);
        if (id.len() == 0 && name.len() == 0) || some_ref_matches(prev, id, name) {
            prev
        } else {
            prev.push((id, name))
        }
    }
}

/// A reference list in normal form: trimmed, non-empty references, none
/// designated by an earlier one.
pub open spec fn is_clean_refs(items: Seq<(Seq<char>, Seq<char>)>) -> bool {
    forall|k: int| 0 <= k < items.len() ==> {
        &&& trim((#[trigger] items[k]).0) == items[k].0
        &&& trim(items[k].1) == items[k].1
        &&& !(items[k].0.len() == 0 && items[k].1.len() == 0)
        &&& !some_ref_matches(items.take(k), items[k].0, items[k].1)
    }
}

proof fn lemma_normalized_refs_clean(items: Seq<(Seq<char>, Seq<char>)>)
    ensures
        is_clean_refs(normalized_refs(items)),
    decreases items.len(),
{
    if items.len() > 0 {
        lemma_normalized_refs_clean(items.drop_last());
        lemma_trim_idempotent(items.last().0);
        lemma_trim_idempotent(items.last().1);
        let prev = normalized_refs(items.drop_last());
        let r = normalized_refs(items);
        if r.len() == prev.len() + 1 {
            assert forall|k: int| 0 <= k < r.len() implies {
                &&& trim((#[trigger] r[k]).0) == r[k].0
                &&& trim(r[k].1) == r[k].1
                &&& !(r[k].0.len() == 0 && r[k].1.len() == 0)
                &&& !some_ref_matches(r.take(k), r[k].0, r[k].1)
            } by {
                if k < prev.len() {
                    assert(r.take(k) =~= prev.take(k));
                } else {
                    assert(r.take(k) =~= prev);
                }
            }
        }
    }
}

proof fn lemma_normalized_refs_fixes_clean(items: Seq<(Seq<char>, Seq<char>)>)
    requires
        is_clean_refs(items),
    ensures
        normalized_refs(items) == items,
    decreases items.len(),
{
    if items.len() > 0 {
        let prev = items.drop_last();
        assert forall|k: int| 0 <= k < prev.len() implies {
            &&& trim((#[trigger] prev[k]).0) == prev[k].0
            &&& trim(prev[k].1) == prev[k].1
            &&& !(prev[k].0.len() == 0 && prev[k].1.len() == 0)
            &&& !some_ref_matches(prev.take(k), prev[k].0, prev[k].1)
        } by {
            assert(items[k] == prev[k]);
            assert(items.take(k) =~= prev.take(k));
        }
        lemma_normalized_refs_fixes_clean(prev);
        let n = items.len() - 1;
        assert(items[n] == items.last());
        assert(items.take(n) =~= prev);
        assert(prev.push(items.last()) =~= items);
    }
}

/// Normalising a device reference list twice gives what normalising once gives.
pub proof fn law_normalize_device_refs_idempotent(items: Seq<(Seq<char>, Seq<char>)>)
    ensures
        normalized_refs(normalized_refs(items)) == normalized_refs(items),
{
    lemma_normalized_refs_clean(items);
    lemma_normalized_refs_fixes_clean(normalized_refs(items));
}

/// Normalises a priority list or blacklist of input devices.
pub fn normalize_audio_input_device_refs(items: &Vec<AudioInputDeviceRef>) -> (r: Vec<AudioInputDeviceRef>)
    ensures
        ref_views(r@) == normalized_refs(ref_views(items@)),
{
    let mut r: Vec<AudioInputDeviceRef> = Vec::new();
    let mut i: usize = 0;
    while i < items.len()
        invariant
            i <= items.len(),
            ref_views(r@) == normalized_refs(ref_views(items@).take(i as int)),
        decreases items.len() - i,
    {
        let value = AudioInputDeviceRef {
            id: trim_str(items[i].id.as_str()),
            name: trim_str(items[i].name.as_str()),
        };
        proof {
            assert(ref_views(items@).take(i + 1).drop_last() =~= ref_views(items@).take(i as int));
            assert(ref_views(items@).take(i + 1).last() == (items@[i as int].id@, items@[i as int].name@));
        }
        let mut found = false;
        let mut k: usize = 0;
        while k < r.len()
            invariant
                k <= r.len(),
                !found ==> forall|j: int| 0 <= j < k ==> !ref_matches(#[trigger] ref_views(r@)[j].0, ref_views(r@)[j].1, value.id@, value.name@),
                found ==> some_ref_matches(ref_views(r@), value.id@, value.name@),
            decreases r.len() - k,
        {
            if r[k].matches_ref(&value) {
                assert(ref_views(r@)[k as int] == (r@[k as int].id@, r@[k as int].name@));
                found = true;
            }
            k = k + 1;
        }
        let empty = chars_of(value.id.as_str()).len() == 0 && chars_of(value.name.as_str()).len() == 0;
        if !empty && !found {
            let ghost v = (value.id@, value.name@);
            r.push(value);
            assert(ref_views(r@) =~= ref_views(r@.drop_last()).push(v));
        }
        i = i + 1;
    }
    assert(ref_views(items@).take(items.len() as int) =~= ref_views(items@));
    r
}

// ---------------------------------------------------------------------------
// Small normalisations
// ---------------------------------------------------------------------------

/// `Some(trimmed)` when the trimmed value is non-empty, else `None`.
pub open spec fn normalized_optional(value: Option<Seq<char>>) -> Option<Seq<char>> {
    match value {
        Some(v) => if trim(v).len() > 0 { Some(trim(v)) } else { None },
        None => None,
    }
}

pub open spec fn opt_view(value: Option<String>) -> Option<Seq<char>> {
    match value {
        Some(v) => Some(v@),
        None => None,
    }
}

/// Trims an optional string and turns a blank one into `None`.
pub fn normalized_optional_string(value: Option<&str>) -> (r: Option<String>)
    ensures
        opt_view(r) == normalized_optional(match value { Some(v) => Some(v@), None => None }),
{
    match value {
        Some(v) => {
            let t = trim_str(v);
            if chars_of(t.as_str()).len() == 0 {
                None
            } else {
                Some(t)
            }
        },
        None => None,
    }
}

/// The interface language: English when asked for, Chinese otherwise.
pub open spec fn normalized_app_language(language: Seq<char>) -> Seq<char> {
    if trim(language) == "en"@ || trim(language) == "en-US"@ {
        "en-US"@
    } else {
        "zh-CN"@
    }
}

/// Normalises the interface language setting.
pub fn normalize_app_language(language: &str) -> (r: String)
    ensures
        r@ == normalized_app_language(language@),
{
    let t = trim_str(language);
    if str_eq(t.as_str(), "en") || str_eq(t.as_str(), "en-US") {
        owned("en-US")
    } else {
        default_app_language()
    }
}

/// The speech service authentication mode: `api_key` for the new console,
/// `legacy` for the old one; a missing mode is `legacy` when an app key is set.
pub open spec fn normalized_asr_auth_mode(auth_mode: Seq<char>, app_key: Seq<char>) -> Seq<char> {
    let m = trim(auth_mode);
    if m == "api_key"@ || m == "new_console"@ || m == "x_api_key"@ {
        "api_key"@
    } else if m == "legacy"@ || m == "old_console"@ {
        "legacy"@
    } else if m.len() == 0 && trim(app_key).len() > 0 {
        "legacy"@
    } else {
        "api_key"@
    }
}

/// Normalises the authentication mode.
pub fn normalize_asr_auth_mode(auth_mode: &str, app_key: &str) -> (r: String)
    ensures
        r@ == normalized_asr_auth_mode(auth_mode@, app_key@),
{
    let m = trim_str(auth_mode);
    let ms = m.as_str();
    if str_eq(ms, "api_key") || str_eq(ms, "new_console") || str_eq(ms, "x_api_key") {
        owned("api_key")
    } else if str_eq(ms, "legacy") || str_eq(ms, "old_console") {
        owned("legacy")
    } else if chars_of(ms).len() == 0 && chars_of(trim_str(app_key).as_str()).len() != 0 {
        owned("legacy")
    } else {
        default_asr_auth_mode()
    }
}


// ---------------------------------------------------------------------------
// Rule lines
// ---------------------------------------------------------------------------

/// Quotation marks stripped from both ends of a rule part.
pub open spec fn is_quote(c: char) -> bool {
    c == '"' || c == '\'' || c == '`' || c == '“' || c == '”' || c == '‘' || c == '’'
}

pub open spec fn strip_quotes_start(s: Seq<char>) -> Seq<char>
    decreases s.len(),
{
    if s.len() > 0 && is_quote(s[0]) {
        strip_quotes_start(s.drop_first())
    } else {
        s
    }
}

pub open spec fn strip_quotes_end(s: Seq<char>) -> Seq<char>
    decreases s.len(),
{
    if s.len() > 0 && is_quote(s.last()) {
        strip_quotes_end(s.drop_last())
    } else {
        s
    }
}

/// A rule part: trimmed, quotation marks removed from both ends, trimmed again.
pub open spec fn rule_part(s: Seq<char>) -> Seq<char> {
    trim(strip_quotes_end(strip_quotes_start(trim(s))))
}

proof fn lemma_strip_start_skip(s: Seq<char>, i: int)
    requires
        0 <= i <= s.len(),
        forall|j: int| 0 <= j < i ==> is_quote(#[trigger] s[j]),
    ensures
        strip_quotes_start(s) == strip_quotes_start(s.skip(i)),
    decreases i,
{
    if i > 0 {
        lemma_strip_start_skip(s.drop_first(), i - 1);
        assert(s.drop_first().skip(i - 1) == s.skip(i));
    } else {
        assert(s.skip(0) == s);
    }
}

proof fn lemma_strip_end_take(s: Seq<char>, k: int)
    requires
        0 <= k <= s.len(),
        forall|j: int| k <= j < s.len() ==> is_quote(#[trigger] s[j]),
    ensures
        strip_quotes_end(s) == strip_quotes_end(s.take(k)),
    decreases s.len() - k,
{
    if k < s.len() {
        lemma_strip_end_take(s.drop_last(), k);
        assert(s.drop_last().take(k) == s.take(k));
    } else {
        assert(s.take(k) == s);
    }
}

fn is_quote_exec(c: char) -> (r: bool)
    ensures
        r == is_quote(c),
{
    c == '"' || c == '\'' || c == '`' || c == '“' || c == '”' || c == '‘' || c == '’'
}

fn strip_quotes(v: &Vec<char>) -> (r: Vec<char>)
    ensures
        r@ == strip_quotes_end(strip_quotes_start(v@)),
{
    let mut a: usize = 0;
    while a < v.len() && is_quote_exec(v[a])
        invariant
            a <= v.len(),
            forall|j: int| 0 <= j < a ==> is_quote(#[trigger] v@[j]),
        decreases v.len() - a,
    {
        a = a + 1;
    }
    proof {
        lemma_strip_start_skip(v@, a as int);
        let t = v@.skip(a as int);
        if t.len() > 0 {
            assert(t[0] == v@[a as int]);
        }
        assert(strip_quotes_start(t) == t);
    }
    let mut b = v.len();
    while b > a && is_quote_exec(v[b - 1])
        invariant
            a <= b <= v.len(),
            forall|j: int| b <= j < v.len() ==> is_quote(#[trigger] v@[j]),
        decreases b - a,
    {
        b = b - 1;
    }
    let ghost t = v@.skip(a as int);
    proof {
        let k = b - a;
        assert forall|j: int| k <= j < t.len() implies is_quote(#[trigger] t[j]) by {
            assert(t[j] == v@[a + j]);
        }
        lemma_strip_end_take(t, k as int);
        let u = t.take(k as int);
        if u.len() > 0 {
            assert(u.last() == v@[b - 1]);
        }
        assert(strip_quotes_end(u) == u);
        assert(u == v@.subrange(a as int, b as int));
    }
    let mut r: Vec<char> = Vec::new();
    let mut i = a;
    while i < b
        invariant
            a <= i <= b <= v.len(),
            r@ == v@.subrange(a as int, i as int),
        decreases b - i,
    {
        r.push(v[i]);
        assert(v@.subrange(a as int, i + 1) == v@.subrange(a as int, i as int).push(v@[i as int]));
        i = i + 1;
    }
    r
}

/// Trims a rule part and removes the quotation marks around it.
pub fn trim_rule_part(value: &Vec<char>) -> (r: Vec<char>)
    ensures
        r@ == rule_part(value@),
{
    let t = trim_chars(value);
    let q = strip_quotes(&t);
    trim_chars(&q)
}

/// The rule that `v` reads as with the marker `m`: text before the first
/// marker maps to text after it, both non-empty once cleaned.
pub open spec fn rule_with_marker(v: Seq<char>, m: Seq<char>) -> Option<(Seq<char>, Seq<char>)> {
    match find_first(v, m) {
        Some(i) => {
            let source = rule_part(v.take(i));
            let target = rule_part(v.skip(i + m.len()));
            if source.len() > 0 && target.len() > 0 {
                Some((source, target))
            } else {
                None
            }
        },
        None => None,
    }
}

/// A rule line `source -> target` (also `=>` or `→`), markers tried in that order.
pub open spec fn parsed_rule_line(v: Seq<char>) -> Option<(Seq<char>, Seq<char>)> {
    match rule_with_marker(v, "->"@) {
        Some(r) => Some(r),
        None => match rule_with_marker(v, "=>"@) {
            Some(r) => Some(r),
            None => rule_with_marker(v, "→"@),
        },
    }
}

fn rule_with_marker_exec(v: &Vec<char>, marker: &str) -> (r: Option<(String, String)>)
    ensures
        match r {
            Some((s, t)) => rule_with_marker(v@, marker@) == Some((s@, t@)),
            None => rule_with_marker(v@, marker@) is None,
        },
{
    let m = chars_of(marker);
    match find_chars(v, &m) {
        Some(i) => {
            proof {
                crate::text::lemma_find_first_bounds(v@, m@);
            }
            let mut before: Vec<char> = Vec::new();
            let mut k: usize = 0;
            while k < i
                invariant
                    k <= i <= v.len(),
                    before@ == v@.take(k as int),
                decreases i - k,
            {
                before.push(v[k]);
                assert(v@.take(k + 1) == v@.take(k as int).push(v@[k as int]));
                k = k + 1;
            }
            let mut after: Vec<char> = Vec::new();
            let mut j: usize = i + m.len();
            while j < v.len()
                invariant
                    i + m.len() <= j <= v.len(),
                    after@ == v@.subrange(i + m.len(), j as int),
                decreases v.len() - j,
            {
                after.push(v[j]);
                assert(v@.subrange(i + m.len(), j + 1) == v@.subrange(i + m.len(), j as int).push(v@[j as int]));
                j = j + 1;
            }
            assert(after@ == v@.skip(i + m.len()));
            let source = trim_rule_part(&before);
            let target = trim_rule_part(&after);
            if source.len() != 0 && target.len() != 0 {
                Some((string_from(&source), string_from(&target)))
            } else {
                None
            }
        },
        None => None,
    }
}

/// Reads `source -> target` (or `=>`, `→`) from a line.
pub fn parse_rule_line(value: &str) -> (r: Option<(String, String)>)
    ensures
        match r {
            Some((s, t)) => parsed_rule_line(value@) == Some((s@, t@)),
            None => parsed_rule_line(value@) is None,
        },
{
    let v = chars_of(value);
    match rule_with_marker_exec(&v, "->") {
        Some(r) => Some(r),
        None => match rule_with_marker_exec(&v, "=>") {
            Some(r) => Some(r),
            None => rule_with_marker_exec(&v, "→"),
        },
    }
}


// ---------------------------------------------------------------------------
// Dictionary migration and legacy text forms
// ---------------------------------------------------------------------------

/// Dictionary terms written as rules move to the rules; other entries stay.
pub open spec fn migrated_dictionary(items: Seq<DictionaryEntry>) -> (Seq<(Seq<char>, Seq<Seq<char>>, Seq<char>)>, Seq<(Seq<char>, Seq<char>, Seq<char>)>)
    decreases items.len(),
{
    if items.len() == 0 {
        (seq![], seq![])
    } else {
        let prev = migrated_dictionary(items.drop_last());
        let x = items.last();
        match parsed_rule_line(x.term@) {
            Some((s, t)) => (prev.0, prev.1.push((s, t, trim(x.note@)))),
            None => (prev.0.push((x.term@, strs(x.aliases@), x.note@)), prev.1),
        }
    }
}

fn copy_strings(v: &Vec<String>) -> (r: Vec<String>)
    ensures
        strs(r@) == strs(v@),
{
    let mut r: Vec<String> = Vec::new();
    let mut i: usize = 0;
    while i < v.len()
        invariant
            i <= v.len(),
            strs(r@) == strs(v@.take(i as int)),
        decreases v.len() - i,
    {
        let c = owned(v[i].as_str());
        let ghost cv = c@;
        r.push(c);
        assert(strs(r@) =~= strs(r@.drop_last()).push(cv));
        assert(strs(v@.take(i + 1)) =~= strs(v@.take(i as int)).push(v@[i as int]@));
        i = i + 1;
    }
    assert(v@.take(v.len() as int) =~= v@);
    r
}

/// Splits the structured dictionary into plain entries and rules.
pub fn migrate_dictionary_rules(dictionary: &Vec<DictionaryEntry>) -> (r: (Vec<DictionaryEntry>, Vec<CorrectionRule>))
    ensures
        (entry_views(r.0@), rule_views(r.1@)) == migrated_dictionary(dictionary@),
{
    let mut entries: Vec<DictionaryEntry> = Vec::new();
    let mut rules: Vec<CorrectionRule> = Vec::new();
    let mut i: usize = 0;
    while i < dictionary.len()
        invariant
            i <= dictionary.len(),
            (entry_views(entries@), rule_views(rules@)) == migrated_dictionary(dictionary@.take(i as int)),
        decreases dictionary.len() - i,
    {
        proof {
            assert(dictionary@.take(i + 1).drop_last() =~= dictionary@.take(i as int));
        }
        let entry = &dictionary[i];
        match parse_rule_line(entry.term.as_str()) {
            Some((source, target)) => {
                let note = trim_str(entry.note.as_str());
                let ghost v = (source@, target@, note@);
                rules.push(CorrectionRule { source, target, note });
                assert(rule_views(rules@) =~= rule_views(rules@.drop_last()).push(v));
            },
            None => {
                let copy = DictionaryEntry {
                    term: owned(entry.term.as_str()),
                    aliases: copy_strings(&entry.aliases),
                    note: owned(entry.note.as_str()),
                };
                let ghost v = (copy.term@, strs(copy.aliases@), copy.note@);
                entries.push(copy);
                assert(entry_views(entries@) =~= entry_views(entries@.drop_last()).push(v));
            },
        }
        i = i + 1;
    }
    assert(dictionary@.take(dictionary.len() as int) =~= dictionary@);
    (entries, rules)
}

/// The non-empty trimmed terms of the structured dictionary.
pub open spec fn legacy_terms(items: Seq<DictionaryEntry>) -> Seq<Seq<char>>
    decreases items.len(),
{
    if items.len() == 0 {
        seq![]
    } else {
        let prev = legacy_terms(items.drop_last());
        let t = trim(items.last().term@);
        if t.len() > 0 { prev.push(t) } else { prev }
    }
}

/// The dictionary text written from the structured dictionary: one term per line.
pub fn legacy_dictionary_text_from_entries(dictionary: &Vec<DictionaryEntry>) -> (r: String)
    ensures
        r@ == join_seq(legacy_terms(dictionary@), "\n"@),
{
    let mut parts: Vec<Vec<char>> = Vec::new();
    let mut i: usize = 0;
    while i < dictionary.len()
        invariant
            i <= dictionary.len(),
            views(parts@) == legacy_terms(dictionary@.take(i as int)),
        decreases dictionary.len() - i,
    {
        proof {
            assert(dictionary@.take(i + 1).drop_last() =~= dictionary@.take(i as int));
        }
        let t = trim_chars(&chars_of(dictionary[i].term.as_str()));
        if t.len() != 0 {
            let ghost tv = t@;
            parts.push(t);
            assert(views(parts@) =~= views(parts@.drop_last()).push(tv));
        }
        i = i + 1;
    }
    assert(dictionary@.take(dictionary.len() as int) =~= dictionary@);
    let sep = chars_of("\n");
    let joined = crate::text::join_chars(&parts, &sep);
    string_from(&joined)
}

/// One rule written as a line: `"source" -> "target"`, followed by the
/// note in full-width parentheses when there is one.
pub open spec fn legacy_rule_line(source: Seq<char>, target: Seq<char>, note: Seq<char>) -> Seq<char> {
    let base = "\""@ + source + "\" -> \""@ + target + "\""@;
    if trim(note).len() == 0 {
        base
    } else {
        base + "（"@ + trim(note) + "）"@
    }
}

/// The lines of the complete rules (trimmed source and target both non-empty).
pub open spec fn legacy_rule_lines(items: Seq<CorrectionRule>) -> Seq<Seq<char>>
    decreases items.len(),
{
    if items.len() == 0 {
        seq![]
    } else {
        let prev = legacy_rule_lines(items.drop_last());
        let x = items.last();
        let s = trim(x.source@);
        let t = trim(x.target@);
        if s.len() > 0 && t.len() > 0 { prev.push(legacy_rule_line(s, t, x.note@)) } else { prev }
    }
}

fn push_str_chars(v: &mut Vec<char>, s: &str)
    ensures
        final(v)@ == old(v)@ + s@,
{
    let w = chars_of(s);
    append_chars(v, &w);
}

/// The rules text written from structured rules: one rule per line.
pub fn legacy_correction_rules_text_from_rules(rules: &Vec<CorrectionRule>) -> (r: String)
    ensures
        r@ == join_seq(legacy_rule_lines(rules@), "\n"@),
{
    let mut parts: Vec<Vec<char>> = Vec::new();
    let mut i: usize = 0;
    while i < rules.len()
        invariant
            i <= rules.len(),
            views(parts@) == legacy_rule_lines(rules@.take(i as int)),
        decreases rules.len() - i,
    {
        proof {
            assert(rules@.take(i + 1).drop_last() =~= rules@.take(i as int));
        }
        let src = trim_chars(&chars_of(rules[i].source.as_str()));
        let tgt = trim_chars(&chars_of(rules[i].target.as_str()));
        if src.len() != 0 && tgt.len() != 0 {
            let note = trim_chars(&chars_of(rules[i].note.as_str()));
            let mut line: Vec<char> = Vec::new();
            push_str_chars(&mut line, "\"");
            append_chars(&mut line, &src);
            push_str_chars(&mut line, "\" -> \"");
            append_chars(&mut line, &tgt);
            push_str_chars(&mut line, "\"");
            if note.len() != 0 {
                push_str_chars(&mut line, "（");
                append_chars(&mut line, &note);
                push_str_chars(&mut line, "）");
            }
            let ghost lv = line@;
            assert(lv =~= legacy_rule_line(src@, tgt@, rules@[i as int].note@));
            parts.push(line);
            assert(views(parts@) =~= views(parts@.drop_last()).push(lv));
        }
        i = i + 1;
    }
    assert(rules@.take(rules.len() as int) =~= rules@);
    let sep = chars_of("\n");
    let joined = crate::text::join_chars(&parts, &sep);
    string_from(&joined)
}


// ---------------------------------------------------------------------------
// Disabled dictionary terms
// ---------------------------------------------------------------------------

/// The trimmed, non-empty pieces, in order.
pub open spec fn nonempty_trimmed(pieces: Seq<Seq<char>>) -> Seq<Seq<char>>
    decreases pieces.len(),
{
    if pieces.len() == 0 {
        seq![]
    } else {
        let prev = nonempty_trimmed(pieces.drop_last());
        let t = trim(pieces.last());
        if t.len() > 0 { prev.push(t) } else { prev }
    }
}

/// The terms of the dictionary text: its non-blank lines, trimmed.
pub open spec fn dictionary_lines(text: Seq<char>) -> Seq<Seq<char>> {
    nonempty_trimmed(split_char(text, '\n'))
}

/// The terms of a dictionary text.
pub fn dictionary_terms(text: &str) -> (r: Vec<Vec<char>>)
    ensures
        views(r@) == dictionary_lines(text@),
{
    let pieces = split_chars(&chars_of(text), '\n');
    let mut r: Vec<Vec<char>> = Vec::new();
    let mut i: usize = 0;
    while i < pieces.len()
        invariant
            i <= pieces.len(),
            views(pieces@) == split_char(text@, '\n'),
            views(r@) == nonempty_trimmed(views(pieces@).take(i as int)),
        decreases pieces.len() - i,
    {
        proof {
            assert(views(pieces@).take(i + 1).drop_last() =~= views(pieces@).take(i as int));
            assert(views(pieces@).take(i + 1).last() == pieces@[i as int]@);
        }
        let t = trim_chars(&pieces[i]);
        if t.len() != 0 {
            let ghost tv = t@;
            r.push(t);
            assert(views(r@) =~= views(r@.drop_last()).push(tv));
        }
        i = i + 1;
    }
    assert(views(pieces@).take(pieces.len() as int) =~= views(pieces@));
    r
}

/// The first term whose lower-case form is `key`.
pub open spec fn term_with_key(terms: Seq<Seq<char>>, key: Seq<char>) -> Option<Seq<char>>
    decreases terms.len(),
{
    if terms.len() == 0 {
        None
    } else if unicode_lowercase(terms[0]) == key {
        Some(terms[0])
    } else {
        term_with_key(terms.drop_first(), key)
    }
}

/// Disabled terms resolved against the dictionary: `(keys seen, terms kept)`.
pub open spec fn disabled_fold(terms: Seq<Seq<char>>, disabled: Seq<Seq<char>>) -> (Seq<Seq<char>>, Seq<Seq<char>>)
    decreases disabled.len(),
{
    if disabled.len() == 0 {
        (seq![], seq![])
    } else {
        let prev = disabled_fold(terms, disabled.drop_last());
        let key = unicode_lowercase(trim(disabled.last()));
        if key.len() == 0 || prev.0.contains(key) {
            prev
        } else {
            match term_with_key(terms, key) {
                Some(t) => (prev.0.push(key), prev.1.push(t)),
                None => prev,
            }
        }
    }
}

/// Disabled terms that name a dictionary term (compared in lower case),
/// written as the dictionary writes them, each once.
pub open spec fn normalized_disabled_terms(dictionary_text: Seq<char>, disabled: Seq<Seq<char>>) -> Seq<Seq<char>> {
    disabled_fold(dictionary_lines(dictionary_text), disabled).1
}

/// Lower-case keys of the given terms.
pub fn lowercase_keys(terms: &Vec<Vec<char>>) -> (r: Vec<String>)
    ensures
        r.len() == terms.len(),
        forall|k: int| 0 <= k < terms.len() ==> (#[trigger] r@[k])@ == unicode_lowercase(terms@[k]@),
{
    let mut r: Vec<String> = Vec::new();
    let mut i: usize = 0;
    while i < terms.len()
        invariant
            i <= terms.len(),
            r.len() == i,
            forall|k: int| 0 <= k < i ==> (#[trigger] r@[k])@ == unicode_lowercase(terms@[k]@),
        decreases terms.len() - i,
    {
        let s = string_from(&terms[i]);
        r.push(to_lowercase(s.as_str()));
        i = i + 1;
    }
    r
}

fn term_with_key_exec(terms: &Vec<Vec<char>>, keys: &Vec<String>, key: &str) -> (r: Option<usize>)
    requires
        keys.len() == terms.len(),
        forall|k: int| 0 <= k < terms.len() ==> (#[trigger] keys@[k])@ == unicode_lowercase(terms@[k]@),
    ensures
        match r {
            Some(i) => i < terms.len() && term_with_key(views(terms@), key@) == Some(terms@[i as int]@),
            None => term_with_key(views(terms@), key@) is None,
        },
{
    let mut i: usize = 0;
    assert(views(terms@).skip(0) =~= views(terms@));
    while i < terms.len()
        invariant
            i <= terms.len(),
            keys.len() == terms.len(),
            forall|k: int| 0 <= k < terms.len() ==> (#[trigger] keys@[k])@ == unicode_lowercase(terms@[k]@),
            term_with_key(views(terms@), key@) == term_with_key(views(terms@).skip(i as int), key@),
        decreases terms.len() - i,
    {
        let ghost rest = views(terms@).skip(i as int);
        assert(rest[0] == terms@[i as int]@);
        if str_eq(keys[i].as_str(), key) {
            return Some(i);
        }
        assert(rest.drop_first() =~= views(terms@).skip(i + 1));
        i = i + 1;
    }
    None
}

/// Keeps the disabled terms that still name a dictionary term.
pub fn normalize_disabled_dictionary_terms(dictionary_text: &str, disabled_terms: &Vec<String>) -> (r: Vec<String>)
    ensures
        strs(r@) == normalized_disabled_terms(dictionary_text@, strs(disabled_terms@)),
{
    let terms = dictionary_terms(dictionary_text);
    let keys = lowercase_keys(&terms);
    let mut seen: Vec<String> = Vec::new();
    let mut r: Vec<String> = Vec::new();
    let mut i: usize = 0;
    assert(views(terms@).skip(0) =~= views(terms@));
    while i < disabled_terms.len()
        invariant
            i <= disabled_terms.len(),
            keys.len() == terms.len(),
            views(terms@) == dictionary_lines(dictionary_text@),
            forall|k: int| 0 <= k < terms.len() ==> (#[trigger] keys@[k])@ == unicode_lowercase(terms@[k]@),
            (strs(seen@), strs(r@)) == disabled_fold(views(terms@), strs(disabled_terms@).take(i as int)),
        decreases disabled_terms.len() - i,
    {
        proof {
            assert(strs(disabled_terms@).take(i + 1).drop_last() =~= strs(disabled_terms@).take(i as int));
            assert(strs(disabled_terms@).take(i + 1).last() == disabled_terms@[i as int]@);
        }
        let t = trim_str(disabled_terms[i].as_str());
        let key = to_lowercase(t.as_str());
        if chars_of(key.as_str()).len() != 0 && !list_contains(&seen, key.as_str()) {
            match term_with_key_exec(&terms, &keys, key.as_str()) {
                Some(j) => {
                    let term = string_from(&terms[j]);
                    let ghost kv = key@;
                    let ghost tv = term@;
                    seen.push(key);
                    r.push(term);
                    assert(strs(seen@) =~= strs(seen@.drop_last()).push(kv));
                    assert(strs(r@) =~= strs(r@.drop_last()).push(tv));
                },
                None => {},
            }
        }
        i = i + 1;
    }
    assert(strs(disabled_terms@).take(disabled_terms.len() as int) =~= strs(disabled_terms@));
    r
}


// ---------------------------------------------------------------------------
// Record normalisation
// ---------------------------------------------------------------------------

impl AsrConfig {
    /// Resolves the authentication mode.
    pub fn normalize(&mut self)
        ensures
            final(self).auth_mode@ == normalized_asr_auth_mode(old(self).auth_mode@, old(self).app_key@),
            final(self).app_key == old(self).app_key,
            final(self).access_key == old(self).access_key,
            final(self).provider == old(self).provider,
            final(self).resource_id == old(self).resource_id,
            final(self).stream_url == old(self).stream_url,
            final(self).submit_url == old(self).submit_url,
            final(self).query_url == old(self).query_url,
            final(self).language == old(self).language,
    {
        self.auth_mode = normalize_asr_auth_mode(self.auth_mode.as_str(), self.app_key.as_str());
    }
}

impl SystemConfig {
    /// Clamps the long-press duration to 50..=5000 ms.
    pub fn normalize(&mut self)
        ensures
            final(self).fn_long_press_duration_ms == (if old(self).fn_long_press_duration_ms < 50 { 50 } else if old(self).fn_long_press_duration_ms > 5000 { 5000 } else { old(self).fn_long_press_duration_ms }),
            final(self).launch_at_login == old(self).launch_at_login,
            final(self).hide_dock_icon == old(self).hide_dock_icon,
            final(self).tray_left_click_recording_enabled == old(self).tray_left_click_recording_enabled,
            final(self).fn_long_press_enabled == old(self).fn_long_press_enabled,
    {
        if self.fn_long_press_duration_ms < 50 {
            self.fn_long_press_duration_ms = 50;
        } else if self.fn_long_press_duration_ms > 5000 {
            self.fn_long_press_duration_ms = 5000;
        }
    }
}

impl Default for SystemConfig {
    fn default() -> (r: Self)
        ensures
            !r.launch_at_login,
            !r.hide_dock_icon,
            r.tray_left_click_recording_enabled,
            !r.fn_long_press_enabled,
            r.fn_long_press_duration_ms == 200,
    {
        SystemConfig {
            launch_at_login: false,
            hide_dock_icon: false,
            tray_left_click_recording_enabled: default_tray_left_click_recording_enabled(),
            fn_long_press_enabled: default_fn_long_press_enabled(),
            fn_long_press_duration_ms: default_fn_long_press_duration_ms(),
        }
    }
}

impl RetentionConfig {
    /// Clamps the record limit to 1..=500 and the storage limit to 1 byte..=2 GiB.
    pub fn normalize(&mut self)
        ensures
            final(self).max_history_records == (if old(self).max_history_records < 1 { 1 } else if old(self).max_history_records > 500 { 500 } else { old(self).max_history_records }),
            final(self).max_storage_bytes == (if old(self).max_storage_bytes < 1 { 1u64 } else if old(self).max_storage_bytes > 2147483648u64 { 2147483648u64 } else { old(self).max_storage_bytes }),
    {
        let max_records = default_max_history_records();
        if self.max_history_records < 1 {
            self.max_history_records = 1;
        } else if self.max_history_records > max_records {
            self.max_history_records = max_records;
        }
        let max_bytes = default_max_storage_bytes();
        if self.max_storage_bytes < 1 {
            self.max_storage_bytes = 1;
        } else if self.max_storage_bytes > max_bytes {
            self.max_storage_bytes = max_bytes;
        }
    }
}

impl Default for RetentionConfig {
    fn default() -> (r: Self)
        ensures
            r.max_history_records == 500,
            r.max_storage_bytes == 2 * 1024 * 1024 * 1024,
    {
        RetentionConfig {
            max_history_records: default_max_history_records(),
            max_storage_bytes: default_max_storage_bytes(),
        }
    }
}

impl OutputVolumeDuckingConfig {
    /// Caps the reduction at 100 %, normalises the whitelist, trims the hotkey.
    pub fn normalize(&mut self)
        ensures
            final(self).reduction_percent == (if old(self).reduction_percent > 100 { 100 } else { old(self).reduction_percent }),
            strs(final(self).device_name_whitelist@) == normalized_list(strs(old(self).device_name_whitelist@)),
            final(self).sound_source_toggle_mute_hotkey@ == trim(old(self).sound_source_toggle_mute_hotkey@),
            final(self).enabled == old(self).enabled,
            final(self).mute_instead_of_reduce == old(self).mute_instead_of_reduce,
            final(self).sound_source_hotkey_fallback_enabled == old(self).sound_source_hotkey_fallback_enabled,
    {
        if self.reduction_percent > 100 {
            self.reduction_percent = 100;
        }
        self.device_name_whitelist = normalize_string_list(&self.device_name_whitelist);
        self.sound_source_toggle_mute_hotkey = trim_str(self.sound_source_toggle_mute_hotkey.as_str());
    }
}

impl OutputVolumeDuckingConfig {
    /// The SoundSource fallback, when enabled, must name a shortcut that
    /// parses; otherwise the configuration is refused with the parser's reason.
    pub fn validate(&self) -> (r: Result<(), String>)
        ensures
            !self.sound_source_hotkey_fallback_enabled ==> r is Ok,
            self.sound_source_hotkey_fallback_enabled ==> match parsed_shortcut(self.sound_source_toggle_mute_hotkey@) {
                Ok(_) => r is Ok,
                Err(e) => r matches Err(m) && m@ == "Invalid SoundSource mute shortcut: "@ + e,
            },
    {
        if self.sound_source_hotkey_fallback_enabled {
            match parse(self.sound_source_toggle_mute_hotkey.as_str()) {
                Ok(_) => {},
                Err(e) => {
                    return Err(concat("Invalid SoundSource mute shortcut: ", e.as_str()));
                },
            }
        }
        Ok(())
    }
}

impl Default for OutputVolumeDuckingConfig {
    fn default() -> (r: Self)
        ensures
            !r.enabled,
            !r.mute_instead_of_reduce,
            r.reduction_percent == 70,
            r.device_name_whitelist@.len() == 0,
            !r.sound_source_hotkey_fallback_enabled,
            r.sound_source_toggle_mute_hotkey@ == "Cmd+Opt+Ctrl+A"@,
    {
        OutputVolumeDuckingConfig {
            enabled: false,
            mute_instead_of_reduce: false,
            reduction_percent: default_output_volume_ducking_reduction_percent(),
            device_name_whitelist: Vec::new(),
            sound_source_hotkey_fallback_enabled: false,
            sound_source_toggle_mute_hotkey: default_sound_source_toggle_mute_hotkey(),
        }
    }
}

impl Default for AudioConfig {
    fn default() -> (r: Self)
        ensures
            r.input_device_mode@ == "system_default"@,
            r.input_device_id is None,
            r.input_device_name is None,
            r.input_device_priority@.len() == 0,
            r.input_device_blacklist@.len() == 0,
            r.output_volume_ducking.reduction_percent == 70,
            !r.output_volume_ducking.enabled,
    {
        AudioConfig {
            input_device_mode: default_input_device_mode(),
            input_device_id: None,
            input_device_name: None,
            input_device_priority: Vec::new(),
            input_device_blacklist: Vec::new(),
            output_volume_ducking: OutputVolumeDuckingConfig::default(),
        }
    }
}

/// The device priority list after normalisation: the normalised list, or,
/// when that is empty and the legacy manual mode named a device, that device.
pub open spec fn normalized_priority(mode: Seq<char>, id: Option<Seq<char>>, name: Option<Seq<char>>, priority: Seq<(Seq<char>, Seq<char>)>) -> Seq<(Seq<char>, Seq<char>)> {
    let manual = mode == "manual"@;
    let p = normalized_refs(priority);
    let legacy_id = if manual { normalized_optional(id) } else { None };
    let legacy_name = if manual { normalized_optional(name) } else { None };
    let lid = match legacy_id { Some(v) => v, None => Seq::<char>::empty() };
    let lname = match legacy_name { Some(v) => v, None => Seq::<char>::empty() };
    if p.len() == 0 && manual && (lid.len() > 0 || lname.len() > 0) {
        seq![(lid, lname)]
    } else {
        p
    }
}

/// The normalised priority list is in normal form (trimmed, non-empty
/// references, none designated by an earlier one), so the manual device
/// that normalisation takes from its first entry is that entry itself.
pub proof fn law_device_policy_follows_first_priority(
    mode: Seq<char>,
    id: Option<Seq<char>>,
    name: Option<Seq<char>>,
    priority: Seq<(Seq<char>, Seq<char>)>,
)
    ensures
        is_clean_refs(normalized_priority(mode, id, name, priority)),
        ({
            let p = normalized_priority(mode, id, name, priority);
            p.len() > 0 ==> {
                &&& normalized_optional(Some(p[0].0)) == (if p[0].0.len() > 0 { Some(p[0].0) } else { None })
                &&& normalized_optional(Some(p[0].1)) == (if p[0].1.len() > 0 { Some(p[0].1) } else { None })
            }
        }),
{
    lemma_normalized_refs_clean(priority);
    let manual = mode == "manual"@;
    let legacy_id = if manual { normalized_optional(id) } else { None };
    let legacy_name = if manual { normalized_optional(name) } else { None };
    let lid = match legacy_id { Some(v) => v, None => Seq::<char>::empty() };
    let lname = match legacy_name { Some(v) => v, None => Seq::<char>::empty() };
    assert(trim(Seq::<char>::empty()) == Seq::<char>::empty()) by {
        assert(crate::text::trim_start(Seq::<char>::empty()) == Seq::<char>::empty());
        assert(crate::text::trim_end(Seq::<char>::empty()) == Seq::<char>::empty());
    }
    match id { Some(v) => lemma_trim_idempotent(v), None => {} }
    match name { Some(v) => lemma_trim_idempotent(v), None => {} }
    let p = normalized_priority(mode, id, name, priority);
    if normalized_refs(priority).len() == 0 && manual && (lid.len() > 0 || lname.len() > 0) {
        assert(trim(lid) == lid);
        assert(trim(lname) == lname);
        assert(p.take(0) =~= Seq::<(Seq<char>, Seq<char>)>::empty());
        assert(is_clean_refs(p));
    }
}

impl AudioConfig {
    /// Normalises the device policy: the first priority entry, if any, becomes
    /// the manual device; otherwise the system default device is used.
    pub fn normalize(&mut self)
        ensures
            ref_views(final(self).input_device_priority@) == normalized_priority(old(self).input_device_mode@, opt_view(old(self).input_device_id), opt_view(old(self).input_device_name), ref_views(old(self).input_device_priority@)),
            ref_views(final(self).input_device_blacklist@) == normalized_refs(ref_views(old(self).input_device_blacklist@)),
            ({
                let p = ref_views(final(self).input_device_priority@);
                if p.len() > 0 {
                    &&& final(self).input_device_mode@ == "manual"@
                    &&& opt_view(final(self).input_device_id) == normalized_optional(Some(p[0].0))
                    &&& opt_view(final(self).input_device_name) == normalized_optional(Some(p[0].1))
                } else {
                    &&& final(self).input_device_mode@ == "system_default"@
                    &&& final(self).input_device_id is None
                    &&& final(self).input_device_name is None
                }
            }),
            final(self).output_volume_ducking.reduction_percent == (if old(self).output_volume_ducking.reduction_percent > 100 { 100 } else { old(self).output_volume_ducking.reduction_percent }),
            strs(final(self).output_volume_ducking.device_name_whitelist@) == normalized_list(strs(old(self).output_volume_ducking.device_name_whitelist@)),
            final(self).output_volume_ducking.sound_source_toggle_mute_hotkey@ == trim(old(self).output_volume_ducking.sound_source_toggle_mute_hotkey@),
            final(self).output_volume_ducking.enabled == old(self).output_volume_ducking.enabled,
            final(self).output_volume_ducking.mute_instead_of_reduce == old(self).output_volume_ducking.mute_instead_of_reduce,
            final(self).output_volume_ducking.sound_source_hotkey_fallback_enabled == old(self).output_volume_ducking.sound_source_hotkey_fallback_enabled,
    {
        let manual = str_eq(self.input_device_mode.as_str(), "manual");
        let legacy_id: Option<String>;
        let legacy_name: Option<String>;
        if manual {
            legacy_id = match &self.input_device_id {
                Some(v) => normalized_optional_string(Some(v.as_str())),
                None => None,
            };
            legacy_name = match &self.input_device_name {
                Some(v) => normalized_optional_string(Some(v.as_str())),
                None => None,
            };
        } else {
            legacy_id = None;
            legacy_name = None;
        }
        let mut priority = normalize_audio_input_device_refs(&self.input_device_priority);
        if priority.len() == 0 && manual {
            let lid = match &legacy_id { Some(v) => owned(v.as_str()), None => String::new() };
            let lname = match &legacy_name { Some(v) => owned(v.as_str()), None => String::new() };
            if chars_of(lid.as_str()).len() != 0 || chars_of(lname.as_str()).len() != 0 {
                let ghost v = (lid@, lname@);
                priority.push(AudioInputDeviceRef { id: lid, name: lname });
                assert(ref_views(priority@) =~= seq![v]);
            }
        }
        self.input_device_blacklist = normalize_audio_input_device_refs(&self.input_device_blacklist);
        if priority.len() > 0 {
            self.input_device_mode = owned("manual");
            self.input_device_id = normalized_optional_string(Some(priority[0].id.as_str()));
            self.input_device_name = normalized_optional_string(Some(priority[0].name.as_str()));
        } else {
            self.input_device_mode = default_input_device_mode();
            self.input_device_id = None;
            self.input_device_name = None;
        }
        self.input_device_priority = priority;
        self.output_volume_ducking.normalize();
    }
}

proof fn lemma_normalized_rules_views(a: Seq<CorrectionRule>, b: Seq<CorrectionRule>)
    requires
        rule_views(a) == rule_views(b),
    ensures
        normalized_rules(a) == normalized_rules(b),
    decreases a.len(),
{
    assert(a.len() == rule_views(a).len());
    assert(b.len() == rule_views(b).len());
    if a.len() > 0 {
        assert(rule_views(a.drop_last()) =~= rule_views(a).drop_last());
        assert(rule_views(b.drop_last()) =~= rule_views(b).drop_last());
        lemma_normalized_rules_views(a.drop_last(), b.drop_last());
        assert(rule_views(a)[a.len() - 1] == rule_views(b)[b.len() - 1]);
    }
}

impl CorrectionConfig {
    /// Fills the text fields a stored configuration did not have (whether
    /// each was present is given) from the structured dictionary and rules,
    /// then resolves the disabled terms against the dictionary text.
    pub fn fill_missing_text_fields(&mut self, dictionary_text_present: bool, correction_rules_text_present: bool)
        ensures
            final(self).dictionary_text@ == (if dictionary_text_present { old(self).dictionary_text@ }
                else { join_seq(legacy_terms(old(self).dictionary@), "\n"@) }),
            final(self).correction_rules_text@ == (if correction_rules_text_present { old(self).correction_rules_text@ }
                else { join_seq(legacy_rule_lines(old(self).correction_rules@), "\n"@) }),
            strs(final(self).disabled_dictionary_terms@) == normalized_disabled_terms(final(self).dictionary_text@,
                strs(old(self).disabled_dictionary_terms@)),
            final(self).dictionary == old(self).dictionary,
            final(self).correction_rules == old(self).correction_rules,
            final(self).enabled == old(self).enabled,
            final(self).user_requirements == old(self).user_requirements,
            final(self).prompt_template == old(self).prompt_template,
            final(self).variables == old(self).variables,
    {
        if !dictionary_text_present {
            self.dictionary_text = legacy_dictionary_text_from_entries(&self.dictionary);
        }
        if !correction_rules_text_present {
            self.correction_rules_text = legacy_correction_rules_text_from_rules(&self.correction_rules);
        }
        self.disabled_dictionary_terms = normalize_disabled_dictionary_terms(
            self.dictionary_text.as_str(),
            &self.disabled_dictionary_terms,
        );
    }
}

impl CorrectionConfig {
    /// Brings the correction settings into their stored form: a template
    /// that is one of the earlier defaults becomes the current default; the
    /// disabled terms are resolved against the dictionary text; rule lines
    /// in the structured dictionary move to the end of the rules; the
    /// dictionary and the rules are normalised.
    pub fn normalize(&mut self)
        ensures
            final(self).prompt_template@ == (if old(self).prompt_template@ == previous_default_prompt_template_text()
                || old(self).prompt_template@ == legacy_default_prompt_template_text() {
                default_prompt_template_text()
            } else {
                old(self).prompt_template@
            }),
            strs(final(self).disabled_dictionary_terms@) == normalized_disabled_terms(old(self).dictionary_text@, strs(old(self).disabled_dictionary_terms@)),
            exists|kept: Seq<DictionaryEntry>, moved: Seq<CorrectionRule>| {
                &&& (entry_views(kept), rule_views(moved)) == migrated_dictionary(old(self).dictionary@)
                &&& entry_views(final(self).dictionary@) == normalized_dictionary(kept)
                &&& rule_views(final(self).correction_rules@) == normalized_rules(old(self).correction_rules@ + moved)
            },
            final(self).enabled == old(self).enabled,
            final(self).user_requirements == old(self).user_requirements,
            final(self).dictionary_text == old(self).dictionary_text,
            final(self).correction_rules_text == old(self).correction_rules_text,
            final(self).variables == old(self).variables,
    {
        let previous = previous_default_prompt_template();
        let legacy = legacy_default_prompt_template();
        if str_eq(self.prompt_template.as_str(), previous.as_str()) || str_eq(self.prompt_template.as_str(), legacy.as_str()) {
            self.prompt_template = default_prompt_template();
        }
        self.disabled_dictionary_terms = normalize_disabled_dictionary_terms(self.dictionary_text.as_str(), &self.disabled_dictionary_terms);
        let (dictionary, migrated) = migrate_dictionary_rules(&self.dictionary);
        self.dictionary = normalize_dictionary(&dictionary);
        let ghost old_rules = self.correction_rules@;
        let mut all: Vec<CorrectionRule> = Vec::new();
        let mut i: usize = 0;
        while i < self.correction_rules.len()
            invariant
                i <= self.correction_rules.len(),
                self.correction_rules@ == old_rules,
                rule_views(all@) == rule_views(old_rules.take(i as int)),
            decreases self.correction_rules.len() - i,
        {
            let r = &self.correction_rules[i];
            let c = CorrectionRule { source: owned(r.source.as_str()), target: owned(r.target.as_str()), note: owned(r.note.as_str()) };
            let ghost before = rule_views(all@);
            all.push(c);
            assert(rule_views(all@) =~= before.push((r.source@, r.target@, r.note@)));
            assert(rule_views(old_rules.take(i + 1)) =~= rule_views(old_rules.take(i as int)).push((r.source@, r.target@, r.note@)));
            i = i + 1;
        }
        assert(old_rules.take(old_rules.len() as int) =~= old_rules);
        let ghost moved = migrated@;
        let mut j: usize = 0;
        while j < migrated.len()
            invariant
                j <= migrated.len(),
                migrated@ == moved,
                rule_views(all@) == rule_views(old_rules) + rule_views(moved.take(j as int)),
            decreases migrated.len() - j,
        {
            let r = &migrated[j];
            let c = CorrectionRule { source: owned(r.source.as_str()), target: owned(r.target.as_str()), note: owned(r.note.as_str()) };
            let ghost before = rule_views(all@);
            all.push(c);
            assert(rule_views(all@) =~= before.push((r.source@, r.target@, r.note@)));
            assert(rule_views(moved.take(j + 1)) =~= rule_views(moved.take(j as int)).push((r.source@, r.target@, r.note@)));
            j = j + 1;
        }
        assert(moved.take(moved.len() as int) =~= moved);
        proof {
            assert(rule_views(old_rules + moved) =~= rule_views(old_rules) + rule_views(moved));
            lemma_normalized_rules_views(all@, old_rules + moved);
        }
        self.correction_rules = normalize_correction_rules(&all);
    }
}

/// The correction model after a withdrawn Volcengine Ark model is replaced
/// by its successor.
pub fn normalized_llm_model(provider: &str, model: &str) -> (r: String)
    ensures
        r@ == (if provider@ == "volc_ark"@ && is_removed_volc_model_spec(model@) { "doubao-seed-2-0-lite-260428"@ } else { model@ }),
{
    if str_eq(provider, "volc_ark") && is_removed_volc_model(model) {
        owned("doubao-seed-2-0-lite-260428")
    } else {
        owned(model)
    }
}

/// How far (in points) the overlay may be moved from its place.
pub const MAX_OVERLAY_OFFSET: i32 = 4000;

/// An overlay offset kept within `MAX_OVERLAY_OFFSET` of the default place.
pub fn clamped_overlay_offset(offset: i32) -> (r: i32)
    ensures
        r as int == (if offset < -MAX_OVERLAY_OFFSET { -MAX_OVERLAY_OFFSET } else if offset > MAX_OVERLAY_OFFSET { MAX_OVERLAY_OFFSET as int } else { offset as int }),
{
    if offset < -MAX_OVERLAY_OFFSET {
        -MAX_OVERLAY_OFFSET
    } else if offset > MAX_OVERLAY_OFFSET {
        MAX_OVERLAY_OFFSET
    } else {
        offset
    }
}

} // verus!
