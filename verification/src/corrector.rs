//! The correction prompt, the requests to the correction model and the
//! reading of its answers.

use vstd::prelude::*;
use crate::asr_response::{as_str, as_u64, get_opt, joined_texts};
use crate::config::{dictionary_lines, dictionary_terms, CorrectionConfig, PromptVariable};
use crate::json::{
    copy_json, get, get_member, jstr, jstring, jview, jviews, lemma_jviews_len, lemma_mviews_len, mviews,
    object_of, one_member, pair_array, push_member, single_array, two_members,
    JsonNumber, JsonValue, JsonView,
};
use crate::text::{
    append_chars, chars_ends_with, chars_of, copy_string, ends_with, is_blank, join_chars,
    join_seq, owned, replace_all, replace_chars, str_eq, string_from, strs, to_lowercase, trim,
    trim_chars, trim_str, unicode_lowercase, views,
};

verus! {

broadcast use vstd::string::group_string_axioms;

// ---------------------------------------------------------------------------
// The prompt
// ---------------------------------------------------------------------------

/// The lower-case keys of the disabled terms.
pub open spec fn disabled_keys(disabled: Seq<Seq<char>>) -> Seq<Seq<char>> {
    disabled.map_values(|d: Seq<char>| unicode_lowercase(trim(d)))
}

/// The dictionary lines that are not disabled (compared in lower case).
pub open spec fn enabled_lines(lines: Seq<Seq<char>>, keys: Seq<Seq<char>>) -> Seq<Seq<char>>
    decreases lines.len(),
{
    if lines.len() == 0 {
        seq![]
    } else {
        let prev = enabled_lines(lines.drop_last(), keys);
        if keys.contains(unicode_lowercase(lines.last())) { prev } else { prev.push(lines.last()) }
    }
}

/// The dictionary as the prompt shows it: its enabled terms, one per line.
pub open spec fn enabled_dictionary_spec(text: Seq<char>, disabled: Seq<Seq<char>>) -> Seq<char> {
    join_seq(enabled_lines(dictionary_lines(text), disabled_keys(disabled)), "\n"@)
}

fn contains_string(list: &Vec<String>, v: &str) -> (r: bool)
    ensures
        r == strs(list@).contains(v@),
{
    crate::text::list_contains(list, v)
}

/// The enabled dictionary terms, one per line.
pub fn enabled_dictionary_text(dictionary_text: &str, disabled_terms: &Vec<String>) -> (r: String)
    ensures
        r@ == enabled_dictionary_spec(dictionary_text@, strs(disabled_terms@)),
{
    let mut keys: Vec<String> = Vec::new();
    let mut i: usize = 0;
    while i < disabled_terms.len()
        invariant
            i <= disabled_terms.len(),
            strs(keys@) == disabled_keys(strs(disabled_terms@).take(i as int)),
        decreases disabled_terms.len() - i,
    {
        let t = trim_str(disabled_terms[i].as_str());
        let k = to_lowercase(t.as_str());
        let ghost kv = k@;
        let ghost before = strs(keys@);
        keys.push(k);
        assert(strs(keys@) =~= before.push(kv));
        assert(disabled_keys(strs(disabled_terms@).take(i + 1)) =~= disabled_keys(strs(disabled_terms@).take(i as int)).push(kv));
        i = i + 1;
    }
    assert(strs(disabled_terms@).take(disabled_terms.len() as int) =~= strs(disabled_terms@));
    let lines = dictionary_terms(dictionary_text);
    let ghost lv = views(lines@);
    let mut kept: Vec<Vec<char>> = Vec::new();
    let mut j: usize = 0;
    while j < lines.len()
        invariant
            j <= lines.len(),
            lv == views(lines@),
            lv == dictionary_lines(dictionary_text@),
            strs(keys@) == disabled_keys(strs(disabled_terms@)),
            views(kept@) == enabled_lines(lv.take(j as int), strs(keys@)),
        decreases lines.len() - j,
    {
        proof {
            assert(lv.take(j + 1).drop_last() =~= lv.take(j as int));
            assert(lv.take(j + 1).last() == lines@[j as int]@);
        }
        let line = string_from(&lines[j]);
        let lower = to_lowercase(line.as_str());
        if !contains_string(&keys, lower.as_str()) {
            let c = chars_of(line.as_str());
            let ghost before = views(kept@);
            kept.push(c);
            assert(views(kept@) =~= before.push(lines@[j as int]@));
        }
        j = j + 1;
    }
    assert(lv.take(lines.len() as int) =~= lv);
    let sep = chars_of("\n");
    let joined = join_chars(&kept, &sep);
    string_from(&joined)
}

/// `str::replace` on strings, for a non-empty pattern.
fn replace_str(s: &str, pattern: &str, with: &str) -> (r: String)
    requires
        pattern@.len() > 0,
    ensures
        r@ == replace_all(s@, pattern@, with@),
{
    let sv = chars_of(s);
    let pv = chars_of(pattern);
    let wv = chars_of(with);
    let out = replace_chars(&sv, &pv, &wv);
    string_from(&out)
}

/// Names that the template fills itself.
pub open spec fn builtin_variable(name: Seq<char>) -> bool {
    name == "user_requirements"@ || name == "dictionary"@ || name == "correction_rules"@ || name == "raw_text"@
}

/// Whether `name` is one of the template's own placeholders.
pub fn is_builtin_variable(name: &str) -> (r: bool)
    ensures
        r == builtin_variable(name@),
{
    str_eq(name, "user_requirements") || str_eq(name, "dictionary") || str_eq(name, "correction_rules") || str_eq(name, "raw_text")
}

/// `{{name}}`.
pub open spec fn placeholder(name: Seq<char>) -> Seq<char> {
    "{{"@ + name + "}}"@
}

pub open spec fn variable_views(v: Seq<PromptVariable>) -> Seq<(Seq<char>, Seq<char>)> {
    v.map_values(|x: PromptVariable| (x.name@, x.value@))
}

/// The prompt with each user variable (trimmed name, not empty, not a
/// built-in) replaced by its trimmed value, in list order.
pub open spec fn with_variables(prompt: Seq<char>, vars: Seq<(Seq<char>, Seq<char>)>) -> Seq<char>
    decreases vars.len(),
{
    if vars.len() == 0 {
        prompt
    } else {
        let p = with_variables(prompt, vars.drop_last());
        let name = trim(vars.last().0);
        if name.len() == 0 || builtin_variable(name) {
            p
        } else {
            replace_all(p, placeholder(name), trim(vars.last().1))
        }
    }
}

/// Fills the user's variables into the prompt.
pub fn apply_prompt_variables(prompt: String, variables: &Vec<PromptVariable>) -> (r: String)
    ensures
        r@ == with_variables(prompt@, variable_views(variables@)),
{
    let ghost vv = variable_views(variables@);
    let mut p = prompt;
    let mut i: usize = 0;
    assert(vv.take(0) =~= Seq::<(Seq<char>, Seq<char>)>::empty());
    while i < variables.len()
        invariant
            i <= variables.len(),
            vv == variable_views(variables@),
            p@ == with_variables(prompt@, vv.take(i as int)),
        decreases variables.len() - i,
    {
        proof {
            assert(vv.take(i + 1).drop_last() =~= vv.take(i as int));
            assert(vv.take(i + 1).last() == (variables@[i as int].name@, variables@[i as int].value@));
        }
        let name = trim_str(variables[i].name.as_str());
        if chars_of(name.as_str()).len() != 0 && !is_builtin_variable(name.as_str()) {
            let mut pat = chars_of("{{");
            let nv = chars_of(name.as_str());
            append_chars(&mut pat, &nv);
            let close = chars_of("}}");
            append_chars(&mut pat, &close);
            let pattern = string_from(&pat);
            let value = trim_str(variables[i].value.as_str());
            p = replace_str(p.as_str(), pattern.as_str(), value.as_str());
        }
        i = i + 1;
    }
    assert(vv.take(variables.len() as int) =~= vv);
    p
}

/// The prompt sent to the correction model: the template with the user's
/// requirements, the enabled dictionary, the correction rules and the raw
/// text filled in, then the user's own variables.
pub open spec fn prompt_spec(raw_text: Seq<char>, c: CorrectionConfig) -> Seq<char> {
    let p1 = replace_all(c.prompt_template@, "{{user_requirements}}"@, trim(c.user_requirements@));
    let p2 = replace_all(p1, "{{dictionary}}"@, enabled_dictionary_spec(c.dictionary_text@, strs(c.disabled_dictionary_terms@)));
    let p3 = replace_all(p2, "{{correction_rules}}"@, c.correction_rules_text@);
    let p4 = replace_all(p3, "{{raw_text}}"@, trim(raw_text));
    with_variables(p4, variable_views(c.variables@))
}

/// Builds the correction prompt for `raw_text`.
pub fn build_correction_prompt(raw_text: &str, correction: &CorrectionConfig) -> (r: String)
    ensures
        r@ == prompt_spec(raw_text@, *correction),
{
    proof {
        reveal_strlit("{{user_requirements}}");
        reveal_strlit("{{dictionary}}");
        reveal_strlit("{{correction_rules}}");
        reveal_strlit("{{raw_text}}");
    }
    let dictionary_text = enabled_dictionary_text(correction.dictionary_text.as_str(), &correction.disabled_dictionary_terms);
    let requirements = trim_str(correction.user_requirements.as_str());
    let p1 = replace_str(correction.prompt_template.as_str(), "{{user_requirements}}", requirements.as_str());
    let p2 = replace_str(p1.as_str(), "{{dictionary}}", dictionary_text.as_str());
    let p3 = replace_str(p2.as_str(), "{{correction_rules}}", correction.correction_rules_text.as_str());
    let raw = trim_str(raw_text);
    let p4 = replace_str(p3.as_str(), "{{raw_text}}", raw.as_str());
    apply_prompt_variables(p4, &correction.variables)
}

// ---------------------------------------------------------------------------
// Endpoint and request settings
// ---------------------------------------------------------------------------

/// A string without its trailing `c` characters.
pub open spec fn strip_trailing(s: Seq<char>, c: char) -> Seq<char>
    decreases s.len(),
{
    if s.len() > 0 && s.last() == c { strip_trailing(s.drop_last(), c) } else { s }
}

/// The request URL: the endpoint (trimmed, without trailing slashes) with
/// the suffix added unless it already ends with it.
pub open spec fn endpoint_spec(endpoint: Seq<char>, suffix: Seq<char>) -> Seq<char> {
    let e = strip_trailing(trim(endpoint), '/');
    if ends_with(e, suffix) { e } else { e + suffix }
}

/// The URL of an API route under the configured endpoint.
pub fn endpoint_url(endpoint: &str, suffix: &str) -> (r: String)
    ensures
        r@ == endpoint_spec(endpoint@, suffix@),
{
    let t = trim_chars(&chars_of(endpoint));
    let mut n = t.len();
    assert(t@.take(n as int) =~= t@);
    while n > 0 && t[n - 1] == '/'
        invariant
            n <= t@.len(),
            strip_trailing(t@, '/') == strip_trailing(t@.take(n as int), '/'),
        decreases n,
    {
        assert(t@.take(n as int).drop_last() =~= t@.take(n - 1));
        n = n - 1;
    }
    let mut e: Vec<char> = Vec::new();
    let mut i: usize = 0;
    while i < n
        invariant
            i <= n <= t@.len(),
            e@ == t@.take(i as int),
        decreases n - i,
    {
        e.push(t[i]);
        assert(t@.take(i + 1) =~= t@.take(i as int).push(t@[i as int]));
        i = i + 1;
    }
    assert(strip_trailing(t@.take(n as int), '/') == t@.take(n as int));
    let sv = chars_of(suffix);
    if chars_ends_with(&e, &sv) {
        string_from(&e)
    } else {
        append_chars(&mut e, &sv);
        string_from(&e)
    }
}

/// The reasoning effort sent: one of the known levels, where Volcengine Ark
/// gets `minimal` for `none` and `high` for `xhigh`; anything else is
/// `medium`.
pub open spec fn effort_spec(provider: Seq<char>, effort: Seq<char>) -> Seq<char> {
    let t = trim(effort);
    let ark = provider == "volc_ark"@;
    if (t == "none"@ || t == "minimal"@) && ark {
        "minimal"@
    } else if t == "xhigh"@ && ark {
        "high"@
    } else if t == "none"@ || t == "minimal"@ || t == "low"@ || t == "medium"@ || t == "high"@ || t == "xhigh"@ {
        t
    } else {
        "medium"@
    }
}

/// The reasoning effort for the configured provider.
pub fn normalize_thinking_effort(provider: &str, thinking_effort: &str) -> (r: String)
    ensures
        r@ == effort_spec(provider@, thinking_effort@),
{
    let t = trim_str(thinking_effort);
    let ark = str_eq(provider, "volc_ark");
    let ts = t.as_str();
    if (str_eq(ts, "none") || str_eq(ts, "minimal")) && ark {
        owned("minimal")
    } else if str_eq(ts, "xhigh") && ark {
        owned("high")
    } else if str_eq(ts, "none") || str_eq(ts, "minimal") || str_eq(ts, "low") || str_eq(ts, "medium")
        || str_eq(ts, "high") || str_eq(ts, "xhigh") {
        t
    } else {
        owned("medium")
    }
}

// ---------------------------------------------------------------------------
// Reading the model's answer
// ---------------------------------------------------------------------------

/// The text of a message content: a string, or the joined `text` of the
/// parts of an array.
pub open spec fn value_text(v: JsonView) -> Option<Seq<char>> {
    match v {
        JsonView::Str(t) => Some(t),
        JsonView::Array(items) => Some(joined_texts(items)),
        _ => None,
    }
}

fn joined_item_texts(items: &Vec<JsonValue>) -> (r: Vec<char>)
    ensures
        r@ == joined_texts(jviews(items@)),
{
    let ghost iv = jviews(items@);
    proof {
        lemma_jviews_len(items@);
    }
    let mut text: Vec<char> = Vec::new();
    let mut i: usize = 0;
    while i < items.len()
        invariant
            i <= items.len(),
            iv == jviews(items@),
            iv.len() == items@.len(),
            forall|k: int| 0 <= k < items@.len() ==> #[trigger] iv[k] == jview(items@[k]),
            text@ == joined_texts(iv.take(i as int)),
        decreases items.len() - i,
    {
        proof {
            assert(iv.take(i + 1).drop_last() =~= iv.take(i as int));
            assert(iv.take(i + 1).last() == jview(items@[i as int]));
        }
        match get_member(&items[i], "text") {
            Some(JsonValue::String(t)) => {
                let tv = chars_of(t.as_str());
                append_chars(&mut text, &tv);
            },
            _ => {
                assert(text@ =~= text@ + Seq::<char>::empty());
            },
        }
        i = i + 1;
    }
    assert(iv.take(items.len() as int) =~= iv);
    text
}

/// The text of a message content.
pub fn value_to_text(value: &JsonValue) -> (r: Option<String>)
    ensures
        (match r { Some(t) => Some(t@), None => None::<Seq<char>> }) == value_text(jview(*value)),
{
    match value {
        JsonValue::String(t) => Some(copy_string(t)),
        JsonValue::Array(items) => {
            let text = joined_item_texts(items);
            Some(string_from(&text))
        },
        _ => None,
    }
}

/// The first item of an array.
pub open spec fn first_item(v: Option<JsonView>) -> Option<JsonView> {
    match v {
        Some(JsonView::Array(items)) => if items.len() > 0 { Some(items[0]) } else { None },
        _ => None,
    }
}

fn first_of<'a>(v: Option<&'a JsonValue>) -> (r: Option<&'a JsonValue>)
    ensures
        (match r { Some(x) => Some(jview(*x)), None => None::<JsonView> })
            == first_item(match v { Some(x) => Some(jview(*x)), None => None }),
{
    match v {
        Some(JsonValue::Array(items)) => {
            proof {
                lemma_jviews_len(items@);
            }
            if items.len() > 0 { Some(&items[0]) } else { None }
        },
        _ => None,
    }
}

fn member_of<'a>(v: Option<&'a JsonValue>, key: &str) -> (r: Option<&'a JsonValue>)
    ensures
        (match r { Some(x) => Some(jview(*x)), None => None::<JsonView> })
            == get_opt(match v { Some(x) => Some(jview(*x)), None => None }, key@),
{
    match v {
        Some(x) => get_member(x, key),
        None => None,
    }
}

/// The answer text in the chat-completions shape:
/// `choices[0].message.content`, trimmed (empty when absent).
pub open spec fn chat_text_spec(v: JsonView) -> Seq<char> {
    let content = get_opt(get_opt(first_item(get(v, "choices"@)), "message"@), "content"@);
    match content {
        Some(c) => match value_text(c) {
            Some(t) => trim(t),
            None => seq![],
        },
        None => seq![],
    }
}

/// The answer text of a chat-completions response.
pub fn extract_chat_completions_text(value: &JsonValue) -> (r: String)
    ensures
        r@ == chat_text_spec(jview(*value)),
{
    let choice = first_of(get_member(value, "choices"));
    let message = member_of(choice, "message");
    let content = member_of(message, "content");
    match content {
        Some(c) => match value_to_text(c) {
            Some(t) => trim_str(t.as_str()),
            None => String::new(),
        },
        None => String::new(),
    }
}

/// The texts of the output parts of one output item whose type is
/// `output_text`, `text` or absent.
pub open spec fn content_texts(parts: Seq<JsonView>) -> Seq<char>
    decreases parts.len(),
{
    if parts.len() == 0 {
        seq![]
    } else {
        let p = parts.last();
        let ty = as_str(get(p, "type"@));
        let take = ty is None || ty == Some("output_text"@) || ty == Some("text"@);
        content_texts(parts.drop_last()) + if take {
            match as_str(get(p, "text"@)) { Some(t) => t, None => seq![] }
        } else {
            seq![]
        }
    }
}

/// The texts of all output items, joined.
pub open spec fn output_texts(items: Seq<JsonView>) -> Seq<char>
    decreases items.len(),
{
    if items.len() == 0 {
        seq![]
    } else {
        output_texts(items.drop_last()) + match get(items.last(), "content"@) {
            Some(JsonView::Array(parts)) => content_texts(parts),
            _ => seq![],
        }
    }
}

/// The text of the content parts is read part by part: the parts of two
/// lists, one after the other, give their texts one after the other.
pub proof fn law_content_texts_concatenate(a: Seq<JsonView>, b: Seq<JsonView>)
    ensures
        content_texts(a + b) == content_texts(a) + content_texts(b),
    decreases b.len(),
{
    if b.len() == 0 {
        assert(a + b =~= a);
        assert(content_texts(a) + content_texts(b) =~= content_texts(a));
    } else {
        law_content_texts_concatenate(a, b.drop_last());
        assert((a + b).drop_last() =~= a + b.drop_last());
        assert((a + b).last() == b.last());
        let p = b.last();
        let ty = as_str(get(p, "type"@));
        let take = ty is None || ty == Some("output_text"@) || ty == Some("text"@);
        let t: Seq<char> = if take { match as_str(get(p, "text"@)) { Some(t) => t, None => seq![] } } else { seq![] };
        assert(content_texts(a) + content_texts(b.drop_last()) + t =~= content_texts(a) + (content_texts(b.drop_last()) + t));
    }
}

/// Every output item is read, in order: the text of two output lists, one
/// after the other, is the text of the first followed by that of the
/// second, and one item's text is the text of its content parts.  So an
/// item appended to the output (a message after a reasoning item, say)
/// appends its text.
pub proof fn law_output_texts_read_every_item(a: Seq<JsonView>, b: Seq<JsonView>, x: JsonView)
    ensures
        output_texts(a + b) == output_texts(a) + output_texts(b),
        output_texts(seq![x]) == (match get(x, "content"@) {
            Some(JsonView::Array(parts)) => content_texts(parts),
            _ => Seq::<char>::empty(),
        }),
    decreases b.len(),
{
    assert(seq![x].drop_last() =~= Seq::<JsonView>::empty());
    assert(seq![x].last() == x);
    if b.len() == 0 {
        assert(a + b =~= a);
        assert(output_texts(a) + output_texts(b) =~= output_texts(a));
    } else {
        law_output_texts_read_every_item(a, b.drop_last(), x);
        assert((a + b).drop_last() =~= a + b.drop_last());
        assert((a + b).last() == b.last());
        let t: Seq<char> = match get(b.last(), "content"@) {
            Some(JsonView::Array(parts)) => content_texts(parts),
            _ => seq![],
        };
        assert(output_texts(a) + output_texts(b.drop_last()) + t =~= output_texts(a) + (output_texts(b.drop_last()) + t));
    }
    let tx: Seq<char> = match get(x, "content"@) {
        Some(JsonView::Array(parts)) => content_texts(parts),
        _ => Seq::<char>::empty(),
    };
    let one = seq![x];
    assert(output_texts(one.drop_last()) == Seq::<char>::empty());
    assert(output_texts(one) == output_texts(one.drop_last()) + tx);
    assert(Seq::<char>::empty() + tx =~= tx);
}

/// The answer text in the responses shape: `output_text`, or the joined
/// texts of the output items; trimmed.
pub open spec fn responses_text_spec(v: JsonView) -> Seq<char> {
    match as_str(get(v, "output_text"@)) {
        Some(t) => trim(t),
        None => match get(v, "output"@) {
            Some(JsonView::Array(items)) => trim(output_texts(items)),
            _ => seq![],
        },
    }
}

fn content_texts_exec(parts: &Vec<JsonValue>) -> (r: Vec<char>)
    ensures
        r@ == content_texts(jviews(parts@)),
{
    let ghost pv = jviews(parts@);
    proof {
        lemma_jviews_len(parts@);
    }
    let mut text: Vec<char> = Vec::new();
    let mut i: usize = 0;
    while i < parts.len()
        invariant
            i <= parts.len(),
            pv == jviews(parts@),
            pv.len() == parts@.len(),
            forall|k: int| 0 <= k < parts@.len() ==> #[trigger] pv[k] == jview(parts@[k]),
            text@ == content_texts(pv.take(i as int)),
        decreases parts.len() - i,
    {
        proof {
            assert(pv.take(i + 1).drop_last() =~= pv.take(i as int));
            assert(pv.take(i + 1).last() == jview(parts@[i as int]));
        }
        let p = &parts[i];
        let take = match get_member(p, "type") {
            Some(JsonValue::String(t)) => str_eq(t.as_str(), "output_text") || str_eq(t.as_str(), "text"),
            _ => true,
        };
        let mut added = false;
        if take {
            match get_member(p, "text") {
                Some(JsonValue::String(t)) => {
                    let tv = chars_of(t.as_str());
                    append_chars(&mut text, &tv);
                    added = true;
                },
                _ => {},
            }
        }
        if !added {
            assert(text@ =~= text@ + Seq::<char>::empty());
        }
        i = i + 1;
    }
    assert(pv.take(parts.len() as int) =~= pv);
    text
}

/// The answer text of a responses-API response.
pub fn extract_responses_text(value: &JsonValue) -> (r: String)
    ensures
        r@ == responses_text_spec(jview(*value)),
{
    match get_member(value, "output_text") {
        Some(JsonValue::String(t)) => {
            return trim_str(t.as_str());
        },
        _ => {},
    }
    match get_member(value, "output") {
        Some(JsonValue::Array(items)) => {
            let ghost iv = jviews(items@);
            proof {
                lemma_jviews_len(items@);
            }
            let mut text: Vec<char> = Vec::new();
            let mut i: usize = 0;
            while i < items.len()
                invariant
                    i <= items.len(),
                    iv == jviews(items@),
                    iv.len() == items@.len(),
                    forall|k: int| 0 <= k < items@.len() ==> #[trigger] iv[k] == jview(items@[k]),
                    text@ == output_texts(iv.take(i as int)),
                decreases items.len() - i,
            {
                proof {
                    assert(iv.take(i + 1).drop_last() =~= iv.take(i as int));
                    assert(iv.take(i + 1).last() == jview(items@[i as int]));
                }
                match get_member(&items[i], "content") {
                    Some(JsonValue::Array(parts)) => {
                        let t = content_texts_exec(parts);
                        append_chars(&mut text, &t);
                    },
                    _ => {
                        assert(text@ =~= text@ + Seq::<char>::empty());
                    },
                }
                i = i + 1;
            }
            assert(iv.take(items.len() as int) =~= iv);
            let joined = string_from(&text);
            trim_str(joined.as_str())
        },
        _ => String::new(),
    }
}

/// The corrected text: in the responses format the responses shape, falling
/// back to the chat shape when that is empty; otherwise the chat shape.
pub open spec fn corrected_spec(v: JsonView, api_format: Seq<char>) -> Seq<char> {
    if trim(api_format) == "responses"@ {
        let t = responses_text_spec(v);
        if t.len() == 0 { chat_text_spec(v) } else { t }
    } else {
        chat_text_spec(v)
    }
}

/// The corrected text of an answer in the configured API format.
pub fn extract_corrected_text(value: &JsonValue, api_format: &str) -> (r: String)
    ensures
        r@ == corrected_spec(jview(*value), api_format@),
{
    let f = trim_str(api_format);
    if str_eq(f.as_str(), "responses") {
        let text = extract_responses_text(value);
        if chars_of(text.as_str()).len() == 0 {
            extract_chat_completions_text(value)
        } else {
            text
        }
    } else {
        extract_chat_completions_text(value)
    }
}

/// Token counts reported with an answer.
#[derive(Debug, Clone, PartialEq, Eq)]
pub struct LlmUsage {
    pub input_tokens: Option<u64>,
    pub output_tokens: Option<u64>,
    pub total_tokens: Option<u64>,
    pub reasoning_tokens: Option<u64>,
}

/// The first of the keys that holds a non-negative integer.
pub open spec fn first_u64_spec(v: JsonView, keys: Seq<Seq<char>>) -> Option<u64>
    decreases keys.len(),
{
    if keys.len() == 0 {
        None
    } else {
        match as_u64(get(v, keys[0])) {
            Some(n) => Some(n),
            None => first_u64_spec(v, keys.drop_first()),
        }
    }
}

fn u64_of(v: &JsonValue, key: &str) -> (r: Option<u64>)
    ensures
        r == as_u64(get(jview(*v), key@)),
{
    match get_member(v, key) {
        Some(JsonValue::Number(JsonNumber::PosInt(n))) => Some(*n),
        _ => None,
    }
}

/// The first of two keys that holds a count.
pub fn first_u64(value: &JsonValue, first: &str, second: &str) -> (r: Option<u64>)
    ensures
        r == first_u64_spec(jview(*value), seq![first@, second@]),
{
    proof {
        reveal_with_fuel(first_u64_spec, 3);
        assert(seq![first@, second@].drop_first() =~= seq![second@]);
        assert(seq![second@].drop_first() =~= Seq::<Seq<char>>::empty());
    }
    match u64_of(value, first) {
        Some(n) => Some(n),
        None => u64_of(value, second),
    }
}

/// The usage report: input, output and total tokens under either naming,
/// and the reasoning tokens from the details object or the usage itself.
pub open spec fn usage_spec(v: JsonView) -> Option<LlmUsage> {
    match get(v, "usage"@) {
        None => None,
        Some(u) => {
            let details = match get(u, "output_tokens_details"@) {
                Some(d) => Some(d),
                None => get(u, "completion_tokens_details"@),
            };
            let from_details = match details {
                Some(d) => as_u64(get(d, "reasoning_tokens"@)),
                None => None,
            };
            Some(LlmUsage {
                input_tokens: first_u64_spec(u, seq!["input_tokens"@, "prompt_tokens"@]),
                output_tokens: first_u64_spec(u, seq!["output_tokens"@, "completion_tokens"@]),
                total_tokens: as_u64(get(u, "total_tokens"@)),
                reasoning_tokens: match from_details {
                    Some(n) => Some(n),
                    None => as_u64(get(u, "reasoning_tokens"@)),
                },
            })
        },
    }
}

/// The token usage reported with an answer.
pub fn extract_usage(value: &JsonValue) -> (r: Option<LlmUsage>)
    ensures
        r == usage_spec(jview(*value)),
{
    let usage = match get_member(value, "usage") {
        Some(u) => u,
        None => return None,
    };
    let details = match get_member(usage, "output_tokens_details") {
        Some(d) => Some(d),
        None => get_member(usage, "completion_tokens_details"),
    };
    let from_details = match details {
        Some(d) => u64_of(d, "reasoning_tokens"),
        None => None,
    };
    Some(LlmUsage {
        input_tokens: first_u64(usage, "input_tokens", "prompt_tokens"),
        output_tokens: first_u64(usage, "output_tokens", "completion_tokens"),
        total_tokens: u64_of(usage, "total_tokens"),
        reasoning_tokens: match from_details {
            Some(n) => Some(n),
            None => u64_of(usage, "reasoning_tokens"),
        },
    })
}

/// Why the model stopped: `choices[0].finish_reason`, else `status`.
pub open spec fn finish_reason_spec(v: JsonView) -> Option<Seq<char>> {
    match as_str(get_opt(first_item(get(v, "choices"@)), "finish_reason"@)) {
        Some(r) => Some(r),
        None => as_str(get(v, "status"@)),
    }
}

/// Why the model stopped, as reported.
pub fn extract_finish_reason(value: &JsonValue) -> (r: Option<String>)
    ensures
        (match r { Some(s) => Some(s@), None => None::<Seq<char>> }) == finish_reason_spec(jview(*value)),
{
    let choice = first_of(get_member(value, "choices"));
    match member_of(choice, "finish_reason") {
        Some(JsonValue::String(s)) => {
            return Some(copy_string(s));
        },
        _ => {},
    }
    match get_member(value, "status") {
        Some(JsonValue::String(s)) => Some(copy_string(s)),
        _ => None,
    }
}

// ---------------------------------------------------------------------------
// Requests
// ---------------------------------------------------------------------------

/// The parts of the model settings that shape a request (the temperature,
/// a float, is handed over already as a JSON number).
#[derive(Debug, Clone, PartialEq, Eq)]
pub struct LlmRequestSettings {
    pub provider: String,
    pub model: String,
    pub system_prompt: String,
    pub thinking_enabled: bool,
    pub thinking_effort: String,
    pub max_output_tokens: Option<u32>,
}


pub open spec fn thinking_member(s: LlmRequestSettings) -> Seq<(Seq<char>, JsonView)> {
    if s.provider@ == "volc_ark"@ {
        seq![("thinking"@, JsonView::Object(seq![("type"@, jstr(if s.thinking_enabled { "enabled"@ } else { "disabled"@ }))]))]
    } else {
        seq![]
    }
}

/// The chat-completions request body (members in key order): the token
/// limit under the name the provider expects, the system and user messages,
/// the model, the reasoning effort when thinking is on, the temperature,
/// and Volcengine Ark's thinking switch.
pub open spec fn chat_body_spec(s: LlmRequestSettings, temperature: JsonView, prompt: Seq<char>) -> JsonView {
    let limit: Seq<(Seq<char>, JsonView)> = match s.max_output_tokens {
        Some(m) => seq![(if s.provider@ == "openai"@ { "max_completion_tokens"@ } else { "max_tokens"@ },
            JsonView::Number(crate::json::NumberView::PosInt(m as u64)))],
        None => seq![],
    };
    let messages = JsonView::Array(seq![
        JsonView::Object(seq![("content"@, jstr(s.system_prompt@)), ("role"@, jstr("system"@))]),
        JsonView::Object(seq![("content"@, jstr(prompt)), ("role"@, jstr("user"@))]),
    ]);
    let effort: Seq<(Seq<char>, JsonView)> = if s.thinking_enabled {
        seq![("reasoning_effort"@, jstr(effort_spec(s.provider@, s.thinking_effort@)))]
    } else {
        seq![]
    };
    JsonView::Object(limit + seq![("messages"@, messages), ("model"@, jstr(s.model@))] + effort
        + seq![("temperature"@, temperature)] + thinking_member(s))
}

/// The responses request body (members in key order).
pub open spec fn responses_body_spec(s: LlmRequestSettings, temperature: JsonView, prompt: Seq<char>) -> JsonView {
    let part = |t: Seq<char>| JsonView::Array(seq![JsonView::Object(seq![("text"@, jstr(t)), ("type"@, jstr("input_text"@))])]);
    let input = JsonView::Array(seq![
        JsonView::Object(seq![("content"@, part(s.system_prompt@)), ("role"@, jstr("system"@))]),
        JsonView::Object(seq![("content"@, part(prompt)), ("role"@, jstr("user"@))]),
    ]);
    let limit: Seq<(Seq<char>, JsonView)> = match s.max_output_tokens {
        Some(m) => seq![("max_output_tokens"@, JsonView::Number(crate::json::NumberView::PosInt(m as u64)))],
        None => seq![],
    };
    let reasoning: Seq<(Seq<char>, JsonView)> = if s.thinking_enabled {
        seq![("reasoning"@, JsonView::Object(seq![("effort"@, jstr(effort_spec(s.provider@, s.thinking_effort@)))]))]
    } else {
        seq![]
    };
    JsonView::Object(seq![("input"@, input)] + limit + seq![("model"@, jstr(s.model@))] + reasoning
        + seq![("temperature"@, temperature)] + thinking_member(s))
}








fn push_thinking(out: &mut Vec<(String, JsonValue)>, s: &LlmRequestSettings)
    ensures
        mviews(final(out)@) == mviews(old(out)@) + thinking_member(*s),
{
    if str_eq(s.provider.as_str(), "volc_ark") {
        let t = jstring(if s.thinking_enabled { "enabled" } else { "disabled" });
        let o = one_member("type", t);
        push_member(out, "thinking", o);
    }
    assert(mviews(out@) =~= mviews(old(out)@) + thinking_member(*s));
}

/// The body of a chat-completions request.
pub fn build_chat_completions_body(s: &LlmRequestSettings, temperature: JsonValue, prompt: &str) -> (r: JsonValue)
    ensures
        jview(r) == chat_body_spec(*s, jview(temperature), prompt@),
{
    let mut m: Vec<(String, JsonValue)> = Vec::new();
    assert(mviews(m@) =~= Seq::<(Seq<char>, JsonView)>::empty());
    match s.max_output_tokens {
        Some(max) => {
            let key = if str_eq(s.provider.as_str(), "openai") { "max_completion_tokens" } else { "max_tokens" };
            push_member(&mut m, key, JsonValue::Number(JsonNumber::PosInt(max as u64)));
        },
        None => {},
    }
    let ghost after_limit = mviews(m@);
    let system = two_members("content", JsonValue::String(copy_string(&s.system_prompt)), "role", jstring("system"));
    let user = two_members("content", jstring(prompt), "role", jstring("user"));
    let messages = pair_array(system, user);
    push_member(&mut m, "messages", messages);
    push_member(&mut m, "model", JsonValue::String(copy_string(&s.model)));
    if s.thinking_enabled {
        let effort = normalize_thinking_effort(s.provider.as_str(), s.thinking_effort.as_str());
        push_member(&mut m, "reasoning_effort", JsonValue::String(effort));
    }
    let ghost tv = jview(temperature);
    push_member(&mut m, "temperature", temperature);
    let ghost before_thinking = mviews(m@);
    push_thinking(&mut m, s);
    proof {
        assert(mviews(m@) =~= match chat_body_spec(*s, tv, prompt@) { JsonView::Object(x) => x, _ => seq![] });
    }
    object_of(m)
}

/// The body of a responses request.
pub fn build_responses_body(s: &LlmRequestSettings, temperature: JsonValue, prompt: &str) -> (r: JsonValue)
    ensures
        jview(r) == responses_body_spec(*s, jview(temperature), prompt@),
{
    let mut m: Vec<(String, JsonValue)> = Vec::new();
    assert(mviews(m@) =~= Seq::<(Seq<char>, JsonView)>::empty());
    let sys_part = single_array(two_members("text", JsonValue::String(copy_string(&s.system_prompt)), "type", jstring("input_text")));
    let user_part = single_array(two_members("text", jstring(prompt), "type", jstring("input_text")));
    let system = two_members("content", sys_part, "role", jstring("system"));
    let user = two_members("content", user_part, "role", jstring("user"));
    push_member(&mut m, "input", pair_array(system, user));
    match s.max_output_tokens {
        Some(max) => {
            push_member(&mut m, "max_output_tokens", JsonValue::Number(JsonNumber::PosInt(max as u64)));
        },
        None => {},
    }
    push_member(&mut m, "model", JsonValue::String(copy_string(&s.model)));
    if s.thinking_enabled {
        let effort = normalize_thinking_effort(s.provider.as_str(), s.thinking_effort.as_str());
        push_member(&mut m, "reasoning", one_member("effort", JsonValue::String(effort)));
    }
    let ghost tv = jview(temperature);
    push_member(&mut m, "temperature", temperature);
    push_thinking(&mut m, s);
    proof {
        assert(mviews(m@) =~= match responses_body_spec(*s, tv, prompt@) { JsonView::Object(x) => x, _ => seq![] });
    }
    object_of(m)
}

/// Where and what to send: the responses route with its body when the
/// format is `responses`, the chat-completions route otherwise.
pub fn correction_request(
    s: &LlmRequestSettings,
    endpoint: &str,
    api_format: &str,
    temperature: JsonValue,
    prompt: &str,
) -> (r: (String, JsonValue))
    ensures
        trim(api_format@) == "responses"@ ==> r.0@ == endpoint_spec(endpoint@, "/responses"@)
            && jview(r.1) == responses_body_spec(*s, jview(temperature), prompt@),
        trim(api_format@) != "responses"@ ==> r.0@ == endpoint_spec(endpoint@, "/chat/completions"@)
            && jview(r.1) == chat_body_spec(*s, jview(temperature), prompt@),
{
    let f = trim_str(api_format);
    if str_eq(f.as_str(), "responses") {
        (endpoint_url(endpoint, "/responses"), build_responses_body(s, temperature, prompt))
    } else {
        (endpoint_url(endpoint, "/chat/completions"), build_chat_completions_body(s, temperature, prompt))
    }
}

// ---------------------------------------------------------------------------
// Call log and outcome
// ---------------------------------------------------------------------------

/// What was sent and what came back, for the history.
#[derive(Debug, Clone, PartialEq, Eq)]
pub struct LlmCallLog {
    pub provider: String,
    pub model: String,
    pub api_format: String,
    pub endpoint: String,
    pub duration_ms: u128,
    pub success: bool,
    pub request_id: Option<String>,
    pub finish_reason: Option<String>,
    pub usage: Option<LlmUsage>,
    pub error: Option<String>,
}

/// A corrected text with its call log.
#[derive(Debug, Clone, PartialEq, Eq)]
pub struct LlmCorrectionOutput {
    pub text: String,
    pub log: LlmCallLog,
}

/// A failed correction, with the call log when a call was made.
#[derive(Debug, Clone, PartialEq, Eq)]
pub struct LlmCorrectionError {
    pub message: String,
    pub log: Option<Box<LlmCallLog>>,
}

impl LlmCorrectionError {
    /// A failure before any call was made.
    pub fn new(message: &str) -> (r: Self)
        ensures
            r.message@ == message@,
            r.log is None,
    {
        LlmCorrectionError { message: owned(message), log: None }
    }

    /// A failed call: the log is marked failed and records the message.
    pub fn with_log(message: &str, log: LlmCallLog) -> (r: Self)
        ensures
            r.message@ == message@,
            r.log matches Some(l) && !l.success && (l.error matches Some(e) && e@ == message@)
                && l.provider == log.provider && l.model == log.model && l.api_format == log.api_format
                && l.endpoint == log.endpoint && l.duration_ms == log.duration_ms && l.request_id == log.request_id
                && l.finish_reason == log.finish_reason && l.usage == log.usage,
    {
        let mut log = log;
        log.success = false;
        log.error = Some(owned(message));
        LlmCorrectionError { message: owned(message), log: Some(Box::new(log)) }
    }

    /// The message shown for the failure.
    pub fn to_string(&self) -> (r: String)
        ensures
            r@ == self.message@,
    {
        copy_string(&self.message)
    }
}

/// A correction needs an API key and a model.
pub fn check_llm_settings(api_key: &str, model: &str) -> (r: Result<(), LlmCorrectionError>)
    ensures
        is_blank(api_key@) ==> (r matches Err(e) && e.message@ == "LLM api_key is required"@ && e.log is None),
        !is_blank(api_key@) && is_blank(model@) ==> (r matches Err(e) && e.message@ == "LLM model is required"@ && e.log is None),
        !is_blank(api_key@) && !is_blank(model@) ==> r is Ok,
{
    if crate::text::blank(api_key) {
        return Err(LlmCorrectionError::new("LLM api_key is required"));
    }
    if crate::text::blank(model) {
        return Err(LlmCorrectionError::new("LLM model is required"));
    }
    Ok(())
}

/// The outcome of a call that returned a JSON answer after `duration_ms`:
/// the corrected text with a successful log, or, when the text is empty,
/// a failure whose log still carries the usage and finish reason.
pub fn finish_correction(value: &JsonValue, api_format: &str, log: LlmCallLog, duration_ms: u128) -> (r: Result<LlmCorrectionOutput, LlmCorrectionError>)
    ensures
        corrected_spec(jview(*value), api_format@).len() == 0 ==> (r matches Err(e)
            && e.message@ == "LLM returned empty correction"@
            && (e.log matches Some(l) && l.duration_ms == duration_ms && l.usage == usage_spec(jview(*value))
                && (match l.finish_reason { Some(f) => Some(f@), None => None::<Seq<char>> }) == finish_reason_spec(jview(*value))
                && !l.success
                && l.provider == log.provider && l.model == log.model && l.endpoint == log.endpoint
                && l.api_format == log.api_format && l.request_id == log.request_id
                && (l.error matches Some(m) && m@ == "LLM returned empty correction"@))),
        corrected_spec(jview(*value), api_format@).len() > 0 ==> (r matches Ok(o)
            && o.text@ == corrected_spec(jview(*value), api_format@)
            && o.log.success && o.log.duration_ms == duration_ms && o.log.usage == usage_spec(jview(*value))
            && (match o.log.finish_reason { Some(f) => Some(f@), None => None::<Seq<char>> }) == finish_reason_spec(jview(*value))
            && o.log.provider == log.provider && o.log.model == log.model && o.log.endpoint == log.endpoint
            && o.log.api_format == log.api_format && o.log.request_id == log.request_id && o.log.error == log.error),
{
    let corrected = extract_corrected_text(value, api_format);
    let mut log = log;
    log.duration_ms = duration_ms;
    log.usage = extract_usage(value);
    log.finish_reason = extract_finish_reason(value);
    if chars_of(corrected.as_str()).len() == 0 {
        return Err(LlmCorrectionError::with_log("LLM returned empty correction", log));
    }
    log.success = true;
    Ok(LlmCorrectionOutput { text: corrected, log })
}

} // verus!
