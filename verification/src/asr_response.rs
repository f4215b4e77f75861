//! Reading the recognition service's JSON results.

use vstd::prelude::*;
use crate::asr::{after_progress, LiveAsrActivity};
use crate::json::{
    get, get_member, jview, jviews, lemma_jviews_len, JsonNumber, JsonValue, JsonView, NumberView,
};
use crate::text::{append_chars, chars_of, copy_string, is_blank, owned, string_from, trim, trim_str};

verus! {

broadcast use vstd::string::group_string_axioms;

/// `as_str` of an optional value.
pub open spec fn as_str(v: Option<JsonView>) -> Option<Seq<char>> {
    match v {
        Some(JsonView::Str(s)) => Some(s),
        _ => None,
    }
}

/// `as_u64` of an optional value.
pub open spec fn as_u64(v: Option<JsonView>) -> Option<u64> {
    match v {
        Some(JsonView::Number(NumberView::PosInt(n))) => Some(n),
        _ => None,
    }
}

/// `get` on an optional value.
pub open spec fn get_opt(v: Option<JsonView>, key: Seq<char>) -> Option<JsonView> {
    match v {
        Some(x) => get(x, key),
        None => None,
    }
}

/// The `text` of each item that has one, joined.
pub open spec fn joined_texts(items: Seq<JsonView>) -> Seq<char>
    decreases items.len(),
{
    if items.len() == 0 {
        seq![]
    } else {
        joined_texts(items.drop_last()) + match as_str(get(items.last(), "text"@)) {
            Some(t) => t,
            None => seq![],
        }
    }
}

/// The recognised text of a result: `result.text`, or the joined texts of
/// the items of a `result` array when they are not blank; trimmed.
pub open spec fn extract_spec(v: JsonView) -> Result<Seq<char>, Seq<char>> {
    let result = get(v, "result"@);
    match as_str(get_opt(result, "text"@)) {
        Some(t) => Ok(trim(t)),
        None => match result {
            Some(JsonView::Array(items)) => if !is_blank(joined_texts(items)) {
                Ok(trim(joined_texts(items)))
            } else {
                Err("Volcengine ASR response did not contain result.text"@)
            },
            _ => Err("Volcengine ASR response did not contain result.text"@),
        },
    }
}

fn str_member(v: Option<&JsonValue>, key: &str) -> (r: Option<String>)
    ensures
        (match r { Some(s) => Some(s@), None => None::<Seq<char>> }) == as_str(get_opt(match v { Some(x) => Some(jview(*x)), None => None }, key@)),
{
    match v {
        Some(x) => match get_member(x, key) {
            Some(JsonValue::String(s)) => Some(copy_string(s)),
            _ => None,
        },
        None => None,
    }
}

/// The recognised text of a service result.
pub fn extract_text(value: &JsonValue) -> (r: Result<String, String>)
    ensures
        match r {
            Ok(t) => extract_spec(jview(*value)) == Ok::<Seq<char>, Seq<char>>(t@),
            Err(e) => extract_spec(jview(*value)) == Err::<Seq<char>, Seq<char>>(e@),
        },
{
    let result = get_member(value, "result");
    match str_member(result, "text") {
        Some(t) => {
            return Ok(trim_str(t.as_str()));
        },
        None => {},
    }
    match result {
        Some(JsonValue::Array(items)) => {
            let ghost iv = jviews(items@);
            proof {
                lemma_jviews_len(items@);
            }
            let mut text: Vec<char> = Vec::new();
            let mut i: usize = 0;
            while i < items.len()
                invariant
                    i <= items.len(),
                    iv == jviews(items@),
                    iv.len() == items@.len(),
                    forall|k: int| 0 <= k < items@.len() ==> #[trigger] iv[k] == jview(items@[k]),
                    text@ == joined_texts(iv.take(i as int)),
                decreases items.len() - i,
            {
                proof {
                    assert(iv.take(i + 1).drop_last() =~= iv.take(i as int));
                    assert(iv.take(i + 1).last() == jview(items@[i as int]));
                }
                match str_member(Some(&items[i]), "text") {
                    Some(t) => {
                        let tv = chars_of(t.as_str());
                        append_chars(&mut text, &tv);
                    },
                    None => {
                        assert(text@ =~= text@ + Seq::<char>::empty());
                    },
                }
                i = i + 1;
            }
            assert(iv.take(items.len() as int) =~= iv);
            let joined = string_from(&text);
            if !crate::text::blank(joined.as_str()) {
                Ok(trim_str(joined.as_str()))
            } else {
                Err(owned("Volcengine ASR response did not contain result.text"))
            }
        },
        _ => Err(owned("Volcengine ASR response did not contain result.text")),
    }
}

/// The end time of an utterance: `end_time_ms`, else `end_time`.
pub open spec fn utterance_end(u: JsonView) -> Option<u64> {
    match as_u64(get(u, "end_time_ms"@)) {
        Some(e) => Some(e),
        None => as_u64(get(u, "end_time"@)),
    }
}

/// Whether an utterance is marked `definite: true`.
pub open spec fn is_definite(u: JsonView) -> bool {
    get(u, "definite"@) == Some(JsonView::Bool(true))
}

/// The latest end time among the definite utterances (with an end time).
pub open spec fn latest_definite_end(items: Seq<JsonView>) -> Option<u64>
    decreases items.len(),
{
    if items.len() == 0 {
        None
    } else {
        let prev = latest_definite_end(items.drop_last());
        let u = items.last();
        if is_definite(u) && utterance_end(u) is Some {
            let e = utterance_end(u)->0;
            match prev {
                Some(p) => if p >= e { Some(p) } else { Some(e) },
                None => Some(e),
            }
        } else {
            prev
        }
    }
}

/// The end of the last definite utterance in `result.utterances`.
pub open spec fn definite_end_spec(v: JsonView) -> Option<u64> {
    match get_opt(get(v, "result"@), "utterances"@) {
        Some(JsonView::Array(items)) => latest_definite_end(items),
        _ => None,
    }
}

fn u64_member(v: &JsonValue, key: &str) -> (r: Option<u64>)
    ensures
        r == as_u64(get(jview(*v), key@)),
{
    match get_member(v, key) {
        Some(JsonValue::Number(JsonNumber::PosInt(n))) => Some(*n),
        _ => None,
    }
}

/// When the last definite utterance of a result ends, if any is reported.
pub fn definite_utterance_end(value: &JsonValue) -> (r: Option<u64>)
    ensures
        r == definite_end_spec(jview(*value)),
{
    let result = match get_member(value, "result") {
        Some(r) => r,
        None => return None,
    };
    let items = match get_member(result, "utterances") {
        Some(JsonValue::Array(items)) => items,
        _ => return None,
    };
    let ghost iv = jviews(items@);
    proof {
        lemma_jviews_len(items@);
    }
    let mut best: Option<u64> = None;
    let mut i: usize = 0;
    while i < items.len()
        invariant
            i <= items.len(),
            iv == jviews(items@),
            iv.len() == items@.len(),
            forall|k: int| 0 <= k < items@.len() ==> #[trigger] iv[k] == jview(items@[k]),
            best == latest_definite_end(iv.take(i as int)),
        decreases items.len() - i,
    {
        proof {
            assert(iv.take(i + 1).drop_last() =~= iv.take(i as int));
            assert(iv.take(i + 1).last() == jview(items@[i as int]));
        }
        let u = &items[i];
        let definite = match get_member(u, "definite") {
            Some(JsonValue::Bool(b)) => *b,
            _ => false,
        };
        if definite {
            let end = match u64_member(u, "end_time_ms") {
                Some(e) => Some(e),
                None => u64_member(u, "end_time"),
            };
            match end {
                Some(e) => {
                    best = match best {
                        Some(p) => if p >= e { Some(p) } else { Some(e) },
                        None => Some(e),
                    };
                },
                None => {},
            }
        }
        i = i + 1;
    }
    assert(iv.take(items.len() as int) =~= iv);
    best
}

/// The text and timing gathered from the results of one session, and the
/// session's progress signal.
#[derive(Debug, PartialEq, Eq)]
pub struct AsrResponseState {
    pub best_text: String,
    pub service_duration_ms: Option<u64>,
    pub activity: Option<LiveAsrActivity>,
    pub last_definite_end_ms: Option<u64>,
}

impl Default for AsrResponseState {
    fn default() -> (r: Self)
        ensures
            r.best_text@.len() == 0,
            r.service_duration_ms is None,
            r.activity is None,
            r.last_definite_end_ms is None,
    {
        AsrResponseState::new(None)
    }
}

/// Whether a result moves the definite part forward.
pub open spec fn progressed(last: Option<u64>, end: Option<u64>) -> bool {
    match end {
        Some(e) => match last {
            Some(p) => e > p,
            None => true,
        },
        None => false,
    }
}

/// The text kept after a result: a new, non-blank text replaces the old.
pub open spec fn next_text(best: Seq<char>, v: JsonView) -> Seq<char> {
    match extract_spec(v) {
        Ok(t) => if !is_blank(t) && t != best { t } else { best },
        Err(_) => best,
    }
}

/// Whether a result counts as progress for the activity signal.
pub open spec fn noted_progress(best: Seq<char>, last: Option<u64>, v: JsonView) -> bool {
    next_text(best, v) != best || progressed(last, definite_end_spec(v))
}

impl AsrResponseState {
    pub fn new(activity: Option<LiveAsrActivity>) -> (r: Self)
        ensures
            r.best_text@.len() == 0,
            r.service_duration_ms is None,
            r.activity == activity,
            r.last_definite_end_ms is None,
    {
        AsrResponseState { best_text: String::new(), service_duration_ms: None, activity, last_definite_end_ms: None }
    }

    /// Takes in one result (`elapsed_ms` after the session started) and says
    /// whether it was the final one: the best text, the definite end and the
    /// service's audio duration are updated, and progress is noted.
    pub fn apply_result(&mut self, value: &JsonValue, final_frame: bool, elapsed_ms: u64) -> (r: bool)
        ensures
            r == final_frame,
            final(self).best_text@ == next_text(old(self).best_text@, jview(*value)),
            final(self).last_definite_end_ms == (if progressed(old(self).last_definite_end_ms, definite_end_spec(jview(*value))) {
                definite_end_spec(jview(*value))
            } else {
                old(self).last_definite_end_ms
            }),
            final(self).service_duration_ms == (match as_u64(get_opt(get(jview(*value), "audio_info"@), "duration"@)) {
                Some(d) => Some(d),
                None => old(self).service_duration_ms,
            }),
            match (old(self).activity, final(self).activity) {
                (Some(a), Some(b)) => b.progress_ms() == (if noted_progress(old(self).best_text@, old(self).last_definite_end_ms, jview(*value)) {
                    after_progress(a.progress_ms(), elapsed_ms)
                } else {
                    a.progress_ms()
                }),
                (None, None) => true,
                _ => false,
            },
    {
        let mut noted = false;
        match extract_text(value) {
            Ok(text) => {
                if !crate::text::blank(text.as_str()) && !crate::text::str_eq(text.as_str(), self.best_text.as_str()) {
                    self.best_text = text;
                    noted = true;
                }
            },
            Err(_) => {},
        }
        match definite_utterance_end(value) {
            Some(end_ms) => {
                let forward = match self.last_definite_end_ms {
                    Some(previous) => end_ms > previous,
                    None => true,
                };
                if forward {
                    self.last_definite_end_ms = Some(end_ms);
                    noted = true;
                }
            },
            None => {},
        }
        let duration = match get_member(value, "audio_info") {
            Some(info) => u64_member(info, "duration"),
            None => None,
        };
        match duration {
            Some(d) => {
                self.service_duration_ms = Some(d);
            },
            None => {},
        }
        if noted {
            match &mut self.activity {
                Some(a) => {
                    a.note_progress(elapsed_ms);
                },
                None => {},
            }
        }
        final_frame
    }
}

} // verus!
