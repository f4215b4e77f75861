//! Dictation history: which records are shown, how input is counted, and
//! the age limits of recording cleanup.

use vstd::prelude::*;
use crate::text::{chars_of, contains_seq, decimal, is_blank, owned, push_decimal, str_contains, string_from};

verus! {

broadcast use vstd::string::group_string_axioms;

/// Whether a workflow error only says that nothing was recognised; such
/// records are hidden and not counted.
pub open spec fn empty_asr_error(message: Seq<char>) -> bool {
    contains_seq(message, "Volcengine ASR response did not contain text"@)
        || contains_seq(message, "Volcengine live ASR response did not contain text"@)
        || contains_seq(message, "ASR returned empty text"@)
}

/// Whether `message` reports that the recognition returned no text.
pub fn is_empty_asr_text_error(message: &str) -> (r: bool)
    ensures
        r == empty_asr_error(message@),
{
    str_contains(message, "Volcengine ASR response did not contain text")
        || str_contains(message, "Volcengine live ASR response did not contain text")
        || str_contains(message, "ASR returned empty text")
}

/// Whether a record with this workflow error is hidden from the history.
pub fn should_hide_history_record(workflow_error: &Option<String>) -> (r: bool)
    ensures
        r == (match workflow_error { Some(e) => empty_asr_error(e@), None => false }),
{
    match workflow_error {
        Some(e) => is_empty_asr_text_error(e.as_str()),
        None => false,
    }
}

/// The CJK ideograph blocks (unified, extensions, compatibility).
pub open spec fn chinese(c: char) -> bool {
    let n = c as u32;
    (0x3400 <= n <= 0x4DBF) || (0x4E00 <= n <= 0x9FFF) || (0xF900 <= n <= 0xFAFF)
        || (0x20000 <= n <= 0x2A6DF) || (0x2A700 <= n <= 0x2B73F) || (0x2B740 <= n <= 0x2B81F)
        || (0x2B820 <= n <= 0x2CEAF) || (0x2CEB0 <= n <= 0x2EBEF) || (0x2F800 <= n <= 0x2FA1F)
        || (0x30000 <= n <= 0x3134F)
}

/// Whether `ch` is a Chinese character.
pub fn is_chinese_character(ch: char) -> (r: bool)
    ensures
        r == chinese(ch),
{
    let n = ch as u32;
    (0x3400 <= n && n <= 0x4DBF) || (0x4E00 <= n && n <= 0x9FFF) || (0xF900 <= n && n <= 0xFAFF)
        || (0x20000 <= n && n <= 0x2A6DF) || (0x2A700 <= n && n <= 0x2B73F) || (0x2B740 <= n && n <= 0x2B81F)
        || (0x2B820 <= n && n <= 0x2CEAF) || (0x2CEB0 <= n && n <= 0x2EBEF) || (0x2F800 <= n && n <= 0x2FA1F)
        || (0x30000 <= n && n <= 0x3134F)
}

pub open spec fn ascii_letter(c: char) -> bool {
    ('a' <= c && c <= 'z') || ('A' <= c && c <= 'Z')
}

/// Words counted: each Chinese character, and each run of ASCII letters.
pub open spec fn input_count(s: Seq<char>) -> nat
    decreases s.len(),
{
    if s.len() == 0 {
        0
    } else {
        let c = s.last();
        let prev = input_count(s.drop_last());
        if ascii_letter(c) {
            if s.len() >= 2 && ascii_letter(s[s.len() - 2]) { prev } else { prev + 1 }
        } else if chinese(c) {
            prev + 1
        } else {
            prev
        }
    }
}

proof fn lemma_input_count_bound(s: Seq<char>)
    ensures
        input_count(s) <= s.len(),
    decreases s.len(),
{
    if s.len() > 0 {
        lemma_input_count_bound(s.drop_last());
    }
}

/// Counts the Chinese characters and English words of `text`.
pub fn count_chinese_characters_and_english_words(text: &str) -> (r: usize)
    ensures
        r == input_count(text@),
{
    let chars = chars_of(text);
    let mut count: usize = 0;
    let mut in_english_word = false;
    let mut i: usize = 0;
    while i < chars.len()
        invariant
            i <= chars.len(),
            chars@ == text@,
            count == input_count(chars@.take(i as int)),
            in_english_word == (i > 0 && ascii_letter(chars@[i - 1])),
            count <= i,
        decreases chars.len() - i,
    {
        let ch = chars[i];
        proof {
            let t = chars@.take(i + 1);
            assert(t.drop_last() =~= chars@.take(i as int));
            assert(t.last() == ch);
            if i > 0 {
                assert(t[t.len() - 2] == chars@[i - 1]);
            }
        }
        if ('a' <= ch && ch <= 'z') || ('A' <= ch && ch <= 'Z') {
            if !in_english_word {
                count = count + 1;
                in_english_word = true;
            }
        } else {
            in_english_word = false;
            if is_chinese_character(ch) {
                count = count + 1;
            }
        }
        i = i + 1;
    }
    assert(chars@.take(chars.len() as int) =~= chars@);
    count
}

/// The text whose words are counted: what was pasted, else the corrected
/// text, else the raw recognition.
pub open spec fn counted_text(pasted: Seq<char>, corrected: Seq<char>, raw: Seq<char>) -> Seq<char> {
    if !is_blank(pasted) { pasted } else if !is_blank(corrected) { corrected } else { raw }
}

/// The number of words a record contributes to the statistics.
pub fn count_input_characters(pasted_text: &str, corrected_text: &str, raw_text: &str) -> (r: usize)
    ensures
        r == input_count(counted_text(pasted_text@, corrected_text@, raw_text@)),
{
    let text = if !crate::text::blank(pasted_text) {
        pasted_text
    } else if !crate::text::blank(corrected_text) {
        corrected_text
    } else {
        raw_text
    };
    count_chinese_characters_and_english_words(text)
}

/// The unit of a recording-cleanup age.
#[derive(Debug, Clone, Copy, PartialEq, Eq, Structural)]
pub enum RecordingCleanupUnit {
    Day,
    Week,
    Month,
}

/// Milliseconds in a day.
pub const MILLIS_PER_DAY: i64 = 86400000;

/// The age in days, or why it is refused: zero, or more than 36500 days,
/// 5200 weeks or 1200 (thirty-day) months.
pub open spec fn cleanup_days(amount: u32, unit: RecordingCleanupUnit) -> Result<int, Seq<char>> {
    if amount == 0 {
        Err("Recording cleanup age must be greater than zero"@)
    } else {
        match unit {
            RecordingCleanupUnit::Day => if amount > 36500 {
                Err("Recording cleanup days cannot exceed 36500"@)
            } else {
                Ok(amount as int)
            },
            RecordingCleanupUnit::Week => if amount > 5200 {
                Err("Recording cleanup weeks cannot exceed 5200"@)
            } else {
                Ok(7 * amount)
            },
            RecordingCleanupUnit::Month => if amount > 1200 {
                Err("Recording cleanup months cannot exceed 1200"@)
            } else {
                Ok(30 * amount)
            },
        }
    }
}

/// The moment (milliseconds since the epoch) before which recordings are
/// cleaned up: `now` minus the age.
pub fn recording_cleanup_cutoff(now: i64, amount: u32, unit: RecordingCleanupUnit) -> (r: Result<i64, String>)
    requires
        now >= i64::MIN + 36500 * 86400000,
    ensures
        match cleanup_days(amount, unit) {
            Ok(d) => r == Ok::<i64, String>((now - d * 86400000) as i64),
            Err(e) => r matches Err(m) && m@ == e,
        },
{
    if amount == 0 {
        return Err(owned("Recording cleanup age must be greater than zero"));
    }
    let days: i64 = match unit {
        RecordingCleanupUnit::Day => {
            if amount > 36500 {
                return Err(owned("Recording cleanup days cannot exceed 36500"));
            }
            amount as i64
        },
        RecordingCleanupUnit::Week => {
            if amount > 5200 {
                return Err(owned("Recording cleanup weeks cannot exceed 5200"));
            }
            7 * (amount as i64)
        },
        RecordingCleanupUnit::Month => {
            if amount > 1200 {
                return Err(owned("Recording cleanup months cannot exceed 1200"));
            }
            30 * (amount as i64)
        },
    };
    Ok(now - days * MILLIS_PER_DAY)
}

} // verus!
