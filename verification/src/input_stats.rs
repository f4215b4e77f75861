//! Input statistics: per-day totals of dictated words and audio time,
//! kept in date order, whose days always add up to the overall totals.

use vstd::prelude::*;
use crate::history_store::DailyInputStats;
use crate::text::{chars_of, copy_string, list_contains, strs};

verus! {

broadcast use vstd::string::group_string_axioms;

/// `a` sorts before `b` as strings do (by code point, a prefix first).
pub open spec fn lex_lt(a: Seq<char>, b: Seq<char>) -> bool
    decreases a.len(),
{
    if a.len() == 0 {
        b.len() > 0
    } else if b.len() == 0 {
        false
    } else if a[0] != b[0] {
        (a[0] as int) < (b[0] as int)
    } else {
        lex_lt(a.drop_first(), b.drop_first())
    }
}

proof fn lemma_lex_irreflexive(a: Seq<char>)
    ensures
        !lex_lt(a, a),
    decreases a.len(),
{
    if a.len() > 0 {
        lemma_lex_irreflexive(a.drop_first());
    }
}

proof fn lemma_lex_transitive(a: Seq<char>, b: Seq<char>, c: Seq<char>)
    requires
        lex_lt(a, b),
        lex_lt(b, c),
    ensures
        lex_lt(a, c),
    decreases a.len(),
{
    if a.len() > 0 && b.len() > 0 && c.len() > 0 && a[0] == b[0] && b[0] == c[0] {
        lemma_lex_transitive(a.drop_first(), b.drop_first(), c.drop_first());
    }
}

proof fn lemma_lex_total(a: Seq<char>, b: Seq<char>)
    ensures
        a == b || lex_lt(a, b) || lex_lt(b, a),
    decreases a.len(),
{
    if a.len() > 0 && b.len() > 0 && a[0] == b[0] {
        lemma_lex_total(a.drop_first(), b.drop_first());
        if a.drop_first() == b.drop_first() {
            assert(a =~= seq![a[0]] + a.drop_first());
            assert(b =~= seq![b[0]] + b.drop_first());
        }
    } else if a.len() == 0 && b.len() == 0 {
        assert(a =~= b);
    } else if a.len() > 0 && b.len() > 0 {
        let x = a[0] as int;
        let y = b[0] as int;
        assert(x != y);
    }
}

proof fn lemma_lex_skip(a: Seq<char>, b: Seq<char>, i: int)
    requires
        0 <= i <= a.len(),
        i <= b.len(),
        forall|k: int| 0 <= k < i ==> a[k] == b[k],
    ensures
        lex_lt(a, b) == lex_lt(a.subrange(i, a.len() as int), b.subrange(i, b.len() as int)),
    decreases i,
{
    if i == 0 {
        assert(a.subrange(0, a.len() as int) =~= a);
        assert(b.subrange(0, b.len() as int) =~= b);
    } else {
        lemma_lex_skip(a.drop_first(), b.drop_first(), i - 1);
        assert(a.drop_first().subrange(i - 1, a.len() - 1) =~= a.subrange(i, a.len() as int));
        assert(b.drop_first().subrange(i - 1, b.len() - 1) =~= b.subrange(i, b.len() as int));
    }
}

/// Whether `a` sorts before `b`.
pub fn text_before(a: &str, b: &str) -> (r: bool)
    ensures
        r == lex_lt(a@, b@),
{
    let av = chars_of(a);
    let bv = chars_of(b);
    let mut i: usize = 0;
    while i < av.len() && i < bv.len() && av[i] == bv[i]
        invariant
            i <= av.len(),
            i <= bv.len(),
            av@ == a@,
            bv@ == b@,
            forall|k: int| 0 <= k < i ==> av@[k] == bv@[k],
        decreases av.len() - i,
    {
        i = i + 1;
    }
    proof {
        lemma_lex_skip(av@, bv@, i as int);
        let sa = av@.subrange(i as int, av@.len() as int);
        let sb = bv@.subrange(i as int, bv@.len() as int);
        if sa.len() > 0 && sb.len() > 0 {
            assert(sa[0] == av@[i as int]);
            assert(sb[0] == bv@[i as int]);
        }
    }
    if i == av.len() {
        i < bv.len()
    } else if i == bv.len() {
        false
    } else {
        av[i] < bv[i]
    }
}

/// One record's contribution to the statistics.
#[derive(Debug, Clone, PartialEq, Eq)]
pub struct InputStatsEvent {
    pub schema_version: u8,
    pub record_id: String,
    pub date: String,
    pub character_count: u64,
    pub audio_duration_ms: u64,
}

/// The version of the statistics ledger's entries.
pub const STATS_SCHEMA_VERSION: u8 = 1;

/// The statistics event of a history record: none for a hidden record;
/// otherwise its words counted from the text that was pasted, corrected or
/// recognised.  The local date and the audio length are given.
pub fn stats_event_from_record(
    record_id: &String,
    date: String,
    pasted_text: &str,
    corrected_text: &str,
    raw_text: &str,
    workflow_error: &Option<String>,
    audio_duration_ms: u64,
) -> (r: Option<InputStatsEvent>)
    ensures
        (match workflow_error { Some(e) => crate::history::empty_asr_error(e@), None => false }) <==> r is None,
        r matches Some(e) ==> e.schema_version == STATS_SCHEMA_VERSION
            && e.record_id@ == record_id@
            && e.date@ == date@
            && e.character_count == crate::history::input_count(crate::history::counted_text(pasted_text@, corrected_text@, raw_text@))
            && e.audio_duration_ms == audio_duration_ms,
{
    if crate::history::should_hide_history_record(workflow_error) {
        return None;
    }
    let count = crate::history::count_input_characters(pasted_text, corrected_text, raw_text);
    Some(InputStatsEvent {
        schema_version: STATS_SCHEMA_VERSION,
        record_id: copy_string(record_id),
        date,
        character_count: count as u64,
        audio_duration_ms,
    })
}

/// What happens to a line of the statistics ledger when a record changes.
#[derive(Debug, Clone, Copy, PartialEq, Eq, Structural)]
pub enum LedgerAction {
    Keep,
    Remove,
    /// Write the record's new event over the line.
    Merge,
}

/// Whether ledger line `i` is about the record.
pub open spec fn about(line_ids: Seq<Option<String>>, i: int, record_id: Seq<char>) -> bool {
    line_ids[i] matches Some(x) && x@ == record_id
}

/// The action on ledger line `i`: the first line about the record takes
/// the new event (or goes, when the record no longer counts); later ones go.
pub open spec fn ledger_action(line_ids: Seq<Option<String>>, i: int, record_id: Seq<char>, has_event: bool) -> LedgerAction {
    if !about(line_ids, i, record_id) {
        LedgerAction::Keep
    } else if !has_event || exists|j: int| 0 <= j < i && #[trigger] about(line_ids, j, record_id) {
        LedgerAction::Remove
    } else {
        LedgerAction::Merge
    }
}

/// How the ledger changes for a record.
#[derive(Debug, Clone)]
pub struct LedgerUpdate {
    pub actions: Vec<LedgerAction>,
    /// Whether the new event is appended (no line was about the record).
    pub append: bool,
}

/// Plans the ledger update for a record whose event is `has_event`
/// (false for a hidden record), given the `record_id` of each line.
pub fn plan_stats_ledger_update(line_ids: &Vec<Option<String>>, record_id: &str, has_event: bool) -> (r: LedgerUpdate)
    ensures
        r.actions@.len() == line_ids@.len(),
        forall|i: int| 0 <= i < line_ids@.len() ==> #[trigger] r.actions@[i] == ledger_action(line_ids@, i, record_id@, has_event),
        r.append == (has_event && !exists|j: int| 0 <= j < line_ids@.len() && #[trigger] about(line_ids@, j, record_id@)),
{
    let mut actions: Vec<LedgerAction> = Vec::new();
    let mut found = false;
    let mut i: usize = 0;
    while i < line_ids.len()
        invariant
            i <= line_ids.len(),
            actions@.len() == i,
            found == exists|j: int| 0 <= j < i && #[trigger] about(line_ids@, j, record_id@),
            forall|k: int| 0 <= k < i ==> #[trigger] actions@[k] == ledger_action(line_ids@, k, record_id@, has_event),
        decreases line_ids.len() - i,
    {
        let hit = match &line_ids[i] {
            Some(x) => crate::text::str_eq(x.as_str(), record_id),
            None => false,
        };
        let action = if !hit {
            LedgerAction::Keep
        } else if found || !has_event {
            LedgerAction::Remove
        } else {
            LedgerAction::Merge
        };
        actions.push(action);
        proof {
            assert(hit == about(line_ids@, i as int, record_id@));
        }
        if hit {
            found = true;
        }
        proof {
            if about(line_ids@, i as int, record_id@) {
                assert(exists|j: int| 0 <= j < i + 1 && #[trigger] about(line_ids@, j, record_id@));
            } else if exists|j: int| 0 <= j < i + 1 && #[trigger] about(line_ids@, j, record_id@) {
                let j = choose|j: int| 0 <= j < i + 1 && #[trigger] about(line_ids@, j, record_id@);
                assert(j != i);
            }
        }
        i = i + 1;
    }
    LedgerUpdate { actions, append: has_event && !found }
}

/// The days, strictly in date order.
pub open spec fn days_sorted(daily: Seq<DailyInputStats>) -> bool {
    forall|a: int, b: int| 0 <= a < b < daily.len() ==> lex_lt(#[trigger] daily[a].date@, #[trigger] daily[b].date@)
}

/// Words counted over the first `m` days.
pub open spec fn chars_upto(daily: Seq<DailyInputStats>, m: int) -> int
    decreases m,
{
    if m <= 0 { 0 } else { chars_upto(daily, m - 1) + daily[m - 1].character_count }
}

/// Audio time over the first `m` days.
pub open spec fn audio_upto(daily: Seq<DailyInputStats>, m: int) -> int
    decreases m,
{
    if m <= 0 { 0 } else { audio_upto(daily, m - 1) + daily[m - 1].audio_duration_ms }
}

/// The index of day `d`, if it is listed.
pub open spec fn has_day(daily: Seq<DailyInputStats>, d: Seq<char>) -> bool {
    exists|i: int| 0 <= i < daily.len() && #[trigger] daily[i].date@ == d
}

pub open spec fn day_index(daily: Seq<DailyInputStats>, d: Seq<char>) -> int {
    choose|i: int| 0 <= i < daily.len() && #[trigger] daily[i].date@ == d
}

proof fn lemma_upto_update(s: Seq<DailyInputStats>, p: int, x: DailyInputStats, m: int)
    requires
        0 <= p < s.len(),
        0 <= m <= s.len(),
    ensures
        chars_upto(s.update(p, x), m) == chars_upto(s, m) + (if p < m { x.character_count - s[p].character_count } else { 0 }),
        audio_upto(s.update(p, x), m) == audio_upto(s, m) + (if p < m { x.audio_duration_ms - s[p].audio_duration_ms } else { 0 }),
    decreases m,
{
    if m > 0 {
        lemma_upto_update(s, p, x, m - 1);
    }
}

proof fn lemma_upto_insert(s: Seq<DailyInputStats>, p: int, x: DailyInputStats, m: int)
    requires
        0 <= p <= s.len(),
        0 <= m <= s.len() + 1,
    ensures
        m <= p ==> chars_upto(s.insert(p, x), m) == chars_upto(s, m),
        m <= p ==> audio_upto(s.insert(p, x), m) == audio_upto(s, m),
        m > p ==> chars_upto(s.insert(p, x), m) == chars_upto(s, m - 1) + x.character_count,
        m > p ==> audio_upto(s.insert(p, x), m) == audio_upto(s, m - 1) + x.audio_duration_ms,
    decreases m,
{
    if m > 0 {
        lemma_upto_insert(s, p, x, m - 1);
        let t = s.insert(p, x);
        if m - 1 < p {
            assert(t[m - 1] == s[m - 1]);
        } else if m - 1 > p {
            assert(t[m - 1] == s[m - 2]);
        }
    }
}

proof fn lemma_entry_within(s: Seq<DailyInputStats>, i: int, m: int)
    requires
        0 <= i < m <= s.len(),
    ensures
        s[i].character_count <= chars_upto(s, m),
        s[i].audio_duration_ms <= audio_upto(s, m),
    decreases m,
{
    if i < m - 1 {
        lemma_entry_within(s, i, m - 1);
    }
    lemma_upto_nonneg(s, m - 1);
}

proof fn lemma_upto_nonneg(s: Seq<DailyInputStats>, m: int)
    requires
        0 <= m <= s.len(),
    ensures
        chars_upto(s, m) >= 0,
        audio_upto(s, m) >= 0,
    decreases m,
{
    if m > 0 {
        lemma_upto_nonneg(s, m - 1);
    }
}

/// Sorted days name each date once.
proof fn lemma_sorted_unique(daily: Seq<DailyInputStats>, i: int, j: int)
    requires
        days_sorted(daily),
        0 <= i < daily.len(),
        0 <= j < daily.len(),
        daily[i].date@ == daily[j].date@,
    ensures
        i == j,
{
    if i < j {
        assert(lex_lt(daily[i].date@, daily[j].date@));
        lemma_lex_irreflexive(daily[i].date@);
    } else if j < i {
        assert(lex_lt(daily[j].date@, daily[i].date@));
        lemma_lex_irreflexive(daily[i].date@);
    }
}

/// The counts of day `d`: records, words, audio time (zero when absent).
pub open spec fn day_counts(daily: Seq<DailyInputStats>, d: Seq<char>) -> (u64, u64, u64) {
    if has_day(daily, d) {
        let e = daily[day_index(daily, d)];
        (e.record_count, e.character_count, e.audio_duration_ms)
    } else {
        (0, 0, 0)
    }
}

proof fn lemma_day_counts_at(daily: Seq<DailyInputStats>, i: int)
    requires
        days_sorted(daily),
        0 <= i < daily.len(),
    ensures
        has_day(daily, daily[i].date@),
        day_index(daily, daily[i].date@) == i,
        day_counts(daily, daily[i].date@) == (daily[i].record_count, daily[i].character_count, daily[i].audio_duration_ms),
{
    let d = daily[i].date@;
    assert(has_day(daily, d));
    let k = day_index(daily, d);
    lemma_sorted_unique(daily, i, k);
}

/// The ledger's entries of the current version, in order.
pub open spec fn current_entries(ledger: Seq<InputStatsEvent>) -> Seq<InputStatsEvent>
    decreases ledger.len(),
{
    if ledger.len() == 0 {
        seq![]
    } else {
        let prev = current_entries(ledger.drop_last());
        if ledger.last().schema_version == STATS_SCHEMA_VERSION { prev.push(ledger.last()) } else { prev }
    }
}

/// Each record's first event, in order.
pub open spec fn first_seen(s: Seq<InputStatsEvent>) -> Seq<InputStatsEvent>
    decreases s.len(),
{
    if s.len() == 0 {
        seq![]
    } else {
        let prev = first_seen(s.drop_last());
        if exists|j: int| 0 <= j < s.len() - 1 && #[trigger] s[j].record_id@ == s.last().record_id@ { prev } else { prev.push(s.last()) }
    }
}

/// The events counted: the ledger's current entries, then the events of
/// history records, each record once (its first event).
pub open spec fn counted_events(ledger: Seq<InputStatsEvent>, history: Seq<InputStatsEvent>) -> Seq<InputStatsEvent> {
    first_seen(current_entries(ledger) + history)
}

/// Chooses the events to count: see `counted_events`.
pub fn select_stats_events(ledger: Vec<InputStatsEvent>, history: Vec<InputStatsEvent>) -> (r: Vec<InputStatsEvent>)
    ensures
        r@ == counted_events(ledger@, history@),
{
    let ghost orig = ledger@;
    let mut ledger = ledger;
    let mut history = history;
    let mut combined: Vec<InputStatsEvent> = Vec::new();
    let mut i: usize = 0;
    let n = ledger.len();
    while i < n
        invariant
            i <= n,
            n == orig.len(),
            ledger@ == orig.subrange(i as int, n as int),
            combined@ == current_entries(orig.take(i as int)),
        decreases n - i,
    {
        let e = ledger.remove(0);
        proof {
            assert(orig.take(i + 1).drop_last() =~= orig.take(i as int));
            assert(e == orig[i as int]);
        }
        if e.schema_version == STATS_SCHEMA_VERSION {
            combined.push(e);
        }
        proof {
            assert(ledger@ =~= orig.subrange(i + 1, n as int));
        }
        i = i + 1;
    }
    assert(orig.take(n as int) =~= orig);
    combined.append(&mut history);
    let ghost all = combined@;
    let mut out: Vec<InputStatsEvent> = Vec::new();
    let mut seen: Vec<String> = Vec::new();
    let m = combined.len();
    let mut k: usize = 0;
    while k < m
        invariant
            k <= m,
            m == all.len(),
            combined@ == all.subrange(k as int, m as int),
            out@ == first_seen(all.take(k as int)),
            forall|x: Seq<char>| #[trigger] strs(seen@).contains(x) <==> exists|j: int| 0 <= j < k && #[trigger] all[j].record_id@ == x,
        decreases m - k,
    {
        let e = combined.remove(0);
        proof {
            assert(e == all[k as int]);
            let t = all.take(k + 1);
            assert(t.drop_last() =~= all.take(k as int));
            assert(t.last() == e);
            assert forall|j: int| 0 <= j < t.len() - 1 implies #[trigger] t[j].record_id@ == all[j].record_id@ by {}
        }
        let known = list_contains(&seen, e.record_id.as_str());
        if !known {
            let id = copy_string(&e.record_id);
            let ghost before = seen@;
            seen.push(id);
            proof {
                assert(strs(seen@) =~= strs(before).push(e.record_id@));
                assert forall|x: Seq<char>| #[trigger] strs(seen@).contains(x) <==> exists|j: int| 0 <= j < k + 1 && #[trigger] all[j].record_id@ == x by {
                    if x == e.record_id@ {
                        assert(strs(seen@)[before.len() as int] == x);
                        assert(all[k as int].record_id@ == x);
                    } else if strs(seen@).contains(x) {
                        let q = choose|q: int| 0 <= q < strs(seen@).len() && strs(seen@)[q] == x;
                        assert(q < before.len());
                        assert(strs(before)[q] == x);
                        assert(strs(before).contains(x));
                    } else if exists|j: int| 0 <= j < k + 1 && #[trigger] all[j].record_id@ == x {
                        let j = choose|j: int| 0 <= j < k + 1 && #[trigger] all[j].record_id@ == x;
                        assert(j < k);
                        assert(strs(before).contains(x));
                        let q = choose|q: int| 0 <= q < strs(before).len() && strs(before)[q] == x;
                        assert(strs(seen@)[q] == x);
                    }
                }
            }
            proof {
                let t = all.take(k + 1);
                assert(!(exists|j: int| 0 <= j < t.len() - 1 && #[trigger] t[j].record_id@ == t.last().record_id@)) by {
                    if exists|j: int| 0 <= j < t.len() - 1 && #[trigger] t[j].record_id@ == t.last().record_id@ {
                        let j = choose|j: int| 0 <= j < t.len() - 1 && #[trigger] t[j].record_id@ == t.last().record_id@;
                        assert(all[j].record_id@ == e.record_id@);
                        assert(strs(before).contains(e.record_id@));
                    }
                }
                assert(first_seen(t) == first_seen(all.take(k as int)).push(e));
            }
            out.push(e);
        } else {
            proof {
                let t = all.take(k + 1);
                let j = choose|j: int| 0 <= j < k && #[trigger] all[j].record_id@ == e.record_id@;
                assert(t[j].record_id@ == t.last().record_id@);
                assert(first_seen(t) == first_seen(all.take(k as int)));
                assert forall|x: Seq<char>| #[trigger] strs(seen@).contains(x) <==> exists|j: int| 0 <= j < k + 1 && #[trigger] all[j].record_id@ == x by {
                    if exists|j: int| 0 <= j < k + 1 && #[trigger] all[j].record_id@ == x {
                        let j = choose|j: int| 0 <= j < k + 1 && #[trigger] all[j].record_id@ == x;
                        if j == k {
                            assert(all[k as int].record_id@ == e.record_id@);
                        }
                    }
                }
            }
        }
        proof {
            assert(combined@ =~= all.subrange(k + 1, m as int));
        }
        k = k + 1;
    }
    assert(all.take(m as int) =~= all);
    out
}

/// Words over the first `m` events.
pub open spec fn event_chars(s: Seq<InputStatsEvent>, m: int) -> int
    decreases m,
{
    if m <= 0 { 0 } else { event_chars(s, m - 1) + s[m - 1].character_count }
}

/// Audio time over the first `m` events.
pub open spec fn event_audio(s: Seq<InputStatsEvent>, m: int) -> int
    decreases m,
{
    if m <= 0 { 0 } else { event_audio(s, m - 1) + s[m - 1].audio_duration_ms }
}

/// Of the first `m` events, those on day `d`: how many, their words and
/// their audio time.
pub open spec fn on_day(s: Seq<InputStatsEvent>, d: Seq<char>, m: int) -> (int, int, int)
    decreases m,
{
    if m <= 0 {
        (0, 0, 0)
    } else {
        let p = on_day(s, d, m - 1);
        if s[m - 1].date@ == d {
            (p.0 + 1, p.1 + s[m - 1].character_count, p.2 + s[m - 1].audio_duration_ms)
        } else {
            p
        }
    }
}

proof fn lemma_event_sums_grow(s: Seq<InputStatsEvent>, a: int, b: int)
    requires
        0 <= a <= b <= s.len(),
    ensures
        event_chars(s, a) <= event_chars(s, b),
        event_audio(s, a) <= event_audio(s, b),
    decreases b,
{
    if a < b {
        lemma_event_sums_grow(s, a, b - 1);
    }
}

proof fn lemma_on_day_bounded(s: Seq<InputStatsEvent>, d: Seq<char>, m: int)
    requires
        0 <= m <= s.len(),
    ensures
        0 <= on_day(s, d, m).0 <= m,
        0 <= on_day(s, d, m).1 <= event_chars(s, m),
        0 <= on_day(s, d, m).2 <= event_audio(s, m),
    decreases m,
{
    if m > 0 {
        lemma_on_day_bounded(s, d, m - 1);
    }
}

proof fn lemma_first_seen(s: Seq<InputStatsEvent>)
    ensures
        forall|a: int, b: int| 0 <= a < b < first_seen(s).len()
            ==> (#[trigger] first_seen(s)[a]).record_id@ != (#[trigger] first_seen(s)[b]).record_id@,
        forall|a: int| 0 <= a < first_seen(s).len() ==> s.contains(#[trigger] first_seen(s)[a]),
        forall|i: int| 0 <= i < s.len() ==> exists|a: int| 0 <= a < first_seen(s).len()
            && (#[trigger] first_seen(s)[a]).record_id@ == (#[trigger] s[i]).record_id@,
    decreases s.len(),
{
    if s.len() > 0 {
        let rest = s.drop_last();
        lemma_first_seen(rest);
        let p = first_seen(rest);
        let e = s.last();
        assert forall|a: int| 0 <= a < p.len() implies s.contains(#[trigger] p[a]) by {
            assert(rest.contains(p[a]));
            let k = choose|k: int| 0 <= k < rest.len() && rest[k] == p[a];
            assert(s[k] == p[a]);
        }
        if exists|j: int| 0 <= j < s.len() - 1 && #[trigger] s[j].record_id@ == e.record_id@ {
            assert(first_seen(s) == p);
            assert forall|i: int| 0 <= i < s.len() implies exists|a: int| 0 <= a < first_seen(s).len()
                && (#[trigger] first_seen(s)[a]).record_id@ == (#[trigger] s[i]).record_id@ by {
                let t = if i < s.len() - 1 { i } else {
                    choose|j: int| 0 <= j < s.len() - 1 && #[trigger] s[j].record_id@ == e.record_id@
                };
                assert(rest[t] == s[t]);
                let a = choose|a: int| 0 <= a < p.len() && (#[trigger] p[a]).record_id@ == (#[trigger] rest[t]).record_id@;
                assert(first_seen(s)[a].record_id@ == s[i].record_id@);
            }
        } else {
            let q = p.push(e);
            assert forall|a: int, b: int| 0 <= a < b < q.len() implies (#[trigger] q[a]).record_id@ != (#[trigger] q[b]).record_id@ by {
                if b == q.len() - 1 {
                    assert(rest.contains(p[a]));
                    let k = choose|k: int| 0 <= k < rest.len() && rest[k] == p[a];
                    assert(s[k] == rest[k]);
                }
            }
            assert forall|a: int| 0 <= a < q.len() implies s.contains(#[trigger] q[a]) by {
                if a == q.len() - 1 {
                    assert(s[s.len() - 1] == q[a]);
                }
            }
            assert(first_seen(s) == q);
            assert forall|i: int| 0 <= i < s.len() implies exists|a: int| 0 <= a < first_seen(s).len()
                && (#[trigger] first_seen(s)[a]).record_id@ == (#[trigger] s[i]).record_id@ by {
                if i < s.len() - 1 {
                    assert(rest[i] == s[i]);
                    let a = choose|a: int| 0 <= a < p.len() && (#[trigger] p[a]).record_id@ == (#[trigger] rest[i]).record_id@;
                    assert(q[a] == p[a]);
                    assert(first_seen(s)[a].record_id@ == s[i].record_id@);
                } else {
                    assert(q[q.len() - 1] == e);
                    assert(first_seen(s)[q.len() - 1].record_id@ == s[i].record_id@);
                }
            }
        }
    }
}

/// Whether some event is about record `id`.
pub open spec fn has_event_for(events: Seq<InputStatsEvent>, id: Seq<char>) -> bool {
    exists|a: int| 0 <= a < events.len() && (#[trigger] events[a]).record_id@ == id
}

/// The statistics count each record once: the events counted name distinct
/// records, each comes from the ledger or the history, and every record
/// with an event in either is counted.
pub proof fn law_each_record_counted_once(ledger: Seq<InputStatsEvent>, history: Seq<InputStatsEvent>)
    ensures
        forall|a: int, b: int| 0 <= a < b < counted_events(ledger, history).len()
            ==> (#[trigger] counted_events(ledger, history)[a]).record_id@
                != (#[trigger] counted_events(ledger, history)[b]).record_id@,
        forall|a: int| 0 <= a < counted_events(ledger, history).len()
            ==> (current_entries(ledger) + history).contains(#[trigger] counted_events(ledger, history)[a]),
        forall|i: int| 0 <= i < history.len() ==> #[trigger] has_event_for(counted_events(ledger, history), history[i].record_id@),
{
    let all = current_entries(ledger) + history;
    lemma_first_seen(all);
    assert forall|i: int| 0 <= i < history.len() implies #[trigger] has_event_for(counted_events(ledger, history), history[i].record_id@) by {
        let k = current_entries(ledger).len() + i;
        assert(all[k] == history[i]);
        let a = choose|a: int| 0 <= a < first_seen(all).len() && (#[trigger] first_seen(all)[a]).record_id@ == (#[trigger] all[k]).record_id@;
        assert(counted_events(ledger, history)[a].record_id@ == history[i].record_id@);
    }
}

proof fn lemma_current_entry_kept(ledger: Seq<InputStatsEvent>, i: int)
    requires
        0 <= i < ledger.len(),
        ledger[i].schema_version == STATS_SCHEMA_VERSION,
    ensures
        current_entries(ledger).contains(ledger[i]),
    decreases ledger.len(),
{
    let prev = current_entries(ledger.drop_last());
    if i == ledger.len() - 1 {
        assert(prev.push(ledger.last())[prev.len() as int] == ledger[i]);
    } else {
        lemma_current_entry_kept(ledger.drop_last(), i);
        assert(ledger.drop_last()[i] == ledger[i]);
        let w = choose|w: int| 0 <= w < prev.len() && prev[w] == ledger[i];
        if ledger.last().schema_version == STATS_SCHEMA_VERSION {
            assert(prev.push(ledger.last())[w] == ledger[i]);
        }
    }
}

proof fn lemma_current_entry_from_ledger(ledger: Seq<InputStatsEvent>, x: InputStatsEvent)
    requires
        current_entries(ledger).contains(x),
    ensures
        ledger.contains(x),
        x.schema_version == STATS_SCHEMA_VERSION,
    decreases ledger.len(),
{
    let prev = current_entries(ledger.drop_last());
    let w = choose|w: int| 0 <= w < current_entries(ledger).len() && current_entries(ledger)[w] == x;
    if w < prev.len() {
        assert(prev[w] == x);
        lemma_current_entry_from_ledger(ledger.drop_last(), x);
        let v = choose|v: int| 0 <= v < ledger.drop_last().len() && ledger.drop_last()[v] == x;
        assert(ledger[v] == x);
    } else {
        assert(ledger[ledger.len() - 1] == x);
    }
}

/// The event counted for a record is its first event: for every event of
/// `s` there is a counted event of the same record at or before it.
proof fn lemma_first_seen_earliest(s: Seq<InputStatsEvent>, k: int)
    requires
        0 <= k < s.len(),
    ensures
        exists|a: int, j: int| #![trigger first_seen(s)[a], s[j]] 0 <= a < first_seen(s).len() && 0 <= j <= k
            && first_seen(s)[a] == s[j] && s[j].record_id@ == s[k].record_id@,
    decreases s.len(),
{
    let rest = s.drop_last();
    let prev = first_seen(rest);
    let e = s.last();
    let dup = exists|j: int| 0 <= j < s.len() - 1 && #[trigger] s[j].record_id@ == e.record_id@;
    if k < s.len() - 1 {
        lemma_first_seen_earliest(rest, k);
        let (a, j) = choose|a: int, j: int| #![trigger first_seen(rest)[a], rest[j]] 0 <= a < prev.len() && 0 <= j <= k
            && prev[a] == rest[j] && rest[j].record_id@ == rest[k].record_id@;
        assert(first_seen(s)[a] == prev[a]);
        assert(s[j] == rest[j] && s[k] == rest[k]);
        assert(s[j].record_id@ == s[k].record_id@);
    } else if dup {
        let j0 = choose|j: int| 0 <= j < s.len() - 1 && #[trigger] s[j].record_id@ == e.record_id@;
        lemma_first_seen_earliest(rest, j0);
        let (a, j) = choose|a: int, j: int| #![trigger first_seen(rest)[a], rest[j]] 0 <= a < prev.len() && 0 <= j <= j0
            && prev[a] == rest[j] && rest[j].record_id@ == rest[j0].record_id@;
        assert(first_seen(s)[a] == prev[a]);
        assert(s[j] == rest[j] && s[j0] == rest[j0]);
        assert(s[j].record_id@ == s[k].record_id@);
    } else {
        let a = prev.len() as int;
        assert(first_seen(s)[a] == s[k]);
        assert(s[k].record_id@ == s[k].record_id@);
    }
}

/// The ledger keeps the counts of pruned records: every ledger entry of the
/// current schema has its record counted, whether or not the history still
/// holds the record, and the event counted for it is a current ledger entry
/// (the ledger comes before the history); every history record is counted
/// as well.
pub proof fn law_ledger_entries_are_counted(ledger: Seq<InputStatsEvent>, history: Seq<InputStatsEvent>)
    ensures
        forall|i: int| 0 <= i < ledger.len() && ledger[i].schema_version == STATS_SCHEMA_VERSION
            ==> exists|a: int| 0 <= a < counted_events(ledger, history).len()
                && (#[trigger] counted_events(ledger, history)[a]).record_id@ == (#[trigger] ledger[i]).record_id@
                && ledger.contains(counted_events(ledger, history)[a])
                && counted_events(ledger, history)[a].schema_version == STATS_SCHEMA_VERSION,
        forall|i: int| 0 <= i < history.len()
            ==> #[trigger] has_event_for(counted_events(ledger, history), history[i].record_id@),
{
    let cur = current_entries(ledger);
    let all = cur + history;
    lemma_first_seen(all);
    assert forall|i: int| 0 <= i < ledger.len() && ledger[i].schema_version == STATS_SCHEMA_VERSION
        implies exists|a: int| 0 <= a < counted_events(ledger, history).len()
                && (#[trigger] counted_events(ledger, history)[a]).record_id@ == (#[trigger] ledger[i]).record_id@
                && ledger.contains(counted_events(ledger, history)[a])
                && counted_events(ledger, history)[a].schema_version == STATS_SCHEMA_VERSION by {
        lemma_current_entry_kept(ledger, i);
        let k = choose|k: int| 0 <= k < cur.len() && cur[k] == ledger[i];
        assert(all[k] == ledger[i]);
        lemma_first_seen_earliest(all, k);
        let (a, j) = choose|a: int, j: int| #![trigger first_seen(all)[a], all[j]] 0 <= a < first_seen(all).len() && 0 <= j <= k
            && first_seen(all)[a] == all[j] && all[j].record_id@ == all[k].record_id@;
        assert(all[j] == cur[j]);
        assert(cur.contains(cur[j]));
        lemma_current_entry_from_ledger(ledger, cur[j]);
        assert(counted_events(ledger, history)[a] == cur[j]);
    }
    assert forall|i: int| 0 <= i < history.len() implies #[trigger] has_event_for(counted_events(ledger, history), history[i].record_id@) by {
        let k = cur.len() + i;
        assert(all[k] == history[i]);
        let a = choose|a: int| 0 <= a < first_seen(all).len() && (#[trigger] first_seen(all)[a]).record_id@ == (#[trigger] all[k]).record_id@;
        assert(counted_events(ledger, history)[a].record_id@ == history[i].record_id@);
    }
}

/// Running totals of the statistics.
#[derive(Debug, Clone)]
pub struct InputStatsAccumulator {
    pub total_character_count: u64,
    pub total_audio_duration_ms: u64,
    pub daily: Vec<DailyInputStats>,
}

impl InputStatsAccumulator {
    /// Days in date order, adding up to the totals.
    pub open spec fn well_formed(&self) -> bool {
        &&& days_sorted(self.daily@)
        &&& chars_upto(self.daily@, self.daily@.len() as int) == self.total_character_count
        &&& audio_upto(self.daily@, self.daily@.len() as int) == self.total_audio_duration_ms
    }

    /// Whether the event fits without overflow.
    pub open spec fn room_for(&self, e: InputStatsEvent) -> bool {
        &&& self.total_character_count + e.character_count <= u64::MAX
        &&& self.total_audio_duration_ms + e.audio_duration_ms <= u64::MAX
        &&& has_day(self.daily@, e.date@) ==> self.daily@[day_index(self.daily@, e.date@)].record_count < u64::MAX
    }

    /// Nothing counted yet.
    pub fn new() -> (r: Self)
        ensures
            r.well_formed(),
            r.total_character_count == 0,
            r.total_audio_duration_ms == 0,
            r.daily@.len() == 0,
    {
        InputStatsAccumulator { total_character_count: 0, total_audio_duration_ms: 0, daily: Vec::new() }
    }

    /// The statistics of a list of events.
    pub fn from_events(events: &Vec<InputStatsEvent>) -> (r: Self)
        requires
            event_chars(events@, events@.len() as int) <= u64::MAX,
            event_audio(events@, events@.len() as int) <= u64::MAX,
        ensures
            r.well_formed(),
            r.total_character_count == event_chars(events@, events@.len() as int),
            r.total_audio_duration_ms == event_audio(events@, events@.len() as int),
            forall|d: Seq<char>| #[trigger] has_day(r.daily@, d) == (exists|i: int| 0 <= i < events@.len() && #[trigger] events@[i].date@ == d),
            forall|d: Seq<char>| #[trigger] day_counts(r.daily@, d) == ({
                let c = on_day(events@, d, events@.len() as int);
                (c.0 as u64, c.1 as u64, c.2 as u64)
            }),
    {
        let mut acc = Self::new();
        let n = events.len();
        let mut k: usize = 0;
        while k < n
            invariant
                k <= n,
                n == events@.len(),
                event_chars(events@, n as int) <= u64::MAX,
                event_audio(events@, n as int) <= u64::MAX,
                acc.well_formed(),
                acc.total_character_count == event_chars(events@, k as int),
                acc.total_audio_duration_ms == event_audio(events@, k as int),
                forall|d: Seq<char>| #[trigger] has_day(acc.daily@, d) == (exists|i: int| 0 <= i < k && #[trigger] events@[i].date@ == d),
                forall|d: Seq<char>| #[trigger] day_counts(acc.daily@, d) == ({
                    let c = on_day(events@, d, k as int);
                    (c.0 as u64, c.1 as u64, c.2 as u64)
                }),
            decreases n - k,
        {
            let e = &events[k];
            proof {
                lemma_event_sums_grow(events@, k + 1, n as int);
                lemma_on_day_bounded(events@, e.date@, k as int);
                if has_day(acc.daily@, e.date@) {
                    let i = day_index(acc.daily@, e.date@);
                    assert(day_counts(acc.daily@, e.date@).0 == acc.daily@[i].record_count);
                }
            }
            acc.add_event(e);
            proof {
                assert forall|d: Seq<char>| #[trigger] has_day(acc.daily@, d) == (exists|i: int| 0 <= i < k + 1 && #[trigger] events@[i].date@ == d) by {
                    if d == e.date@ {
                        assert(events@[k as int].date@ == d);
                    } else if exists|i: int| 0 <= i < k + 1 && #[trigger] events@[i].date@ == d {
                        let i = choose|i: int| 0 <= i < k + 1 && #[trigger] events@[i].date@ == d;
                        assert(i != k);
                    }
                }
                assert forall|d: Seq<char>| #[trigger] day_counts(acc.daily@, d) == ({
                    let c = on_day(events@, d, k + 1);
                    (c.0 as u64, c.1 as u64, c.2 as u64)
                }) by {
                    lemma_on_day_bounded(events@, d, k + 1);
                    lemma_on_day_bounded(events@, d, k as int);
                    lemma_event_sums_grow(events@, k + 1, n as int);
                    if d == e.date@ {
                        assert(events@[k as int].date@ == d);
                    }
                }
            }
            k = k + 1;
        }
        acc
    }

    /// Counts one event under its date.
    pub fn add_event(&mut self, event: &InputStatsEvent)
        requires
            old(self).well_formed(),
            old(self).room_for(*event),
        ensures
            final(self).well_formed(),
            final(self).total_character_count == old(self).total_character_count + event.character_count,
            final(self).total_audio_duration_ms == old(self).total_audio_duration_ms + event.audio_duration_ms,
            forall|d: Seq<char>| #[trigger] has_day(final(self).daily@, d) == (has_day(old(self).daily@, d) || d == event.date@),
            forall|d: Seq<char>| d != event.date@ ==> #[trigger] day_counts(final(self).daily@, d) == day_counts(old(self).daily@, d),
            day_counts(final(self).daily@, event.date@) == ({
                let c = day_counts(old(self).daily@, event.date@);
                ((c.0 + 1) as u64, (c.1 + event.character_count) as u64, (c.2 + event.audio_duration_ms) as u64)
            }),
    {
        let ghost old_daily = self.daily@;
        let n = self.daily.len();
        let mut p: usize = 0;
        while p < n && text_before(self.daily[p].date.as_str(), event.date.as_str())
            invariant
                p <= n,
                n == self.daily@.len(),
                self.daily@ == old_daily,
                forall|k: int| 0 <= k < p ==> lex_lt(#[trigger] old_daily[k].date@, event.date@),
            decreases n - p,
        {
            p = p + 1;
        }
        proof {
            if p < n {
                lemma_lex_total(old_daily[p as int].date@, event.date@);
            }
            assert forall|k: int| p <= k < n implies !lex_lt(#[trigger] old_daily[k].date@, event.date@) by {
                if k > p {
                    assert(lex_lt(old_daily[p as int].date@, old_daily[k].date@));
                    lemma_lex_total(old_daily[p as int].date@, event.date@);
                    if lex_lt(old_daily[k].date@, event.date@) {
                        if lex_lt(event.date@, old_daily[p as int].date@) {
                            lemma_lex_transitive(event.date@, old_daily[p as int].date@, old_daily[k].date@);
                        }
                        lemma_lex_transitive(event.date@, old_daily[k].date@, event.date@);
                        lemma_lex_irreflexive(event.date@);
                    }
                }
            }
        }
        self.total_character_count = self.total_character_count + event.character_count;
        self.total_audio_duration_ms = self.total_audio_duration_ms + event.audio_duration_ms;
        if p < n && crate::text::str_eq(self.daily[p].date.as_str(), event.date.as_str()) {
            let cur = &self.daily[p];
            proof {
                lemma_day_counts_at(old_daily, p as int);
                lemma_entry_within(old_daily, p as int, n as int);
            }
            let updated = DailyInputStats {
                date: copy_string(&cur.date),
                record_count: cur.record_count + 1,
                character_count: cur.character_count + event.character_count,
                audio_duration_ms: cur.audio_duration_ms + event.audio_duration_ms,
            };
            self.daily.set(p, updated);
            proof {
                let nd = self.daily@;
                assert(nd == old_daily.update(p as int, nd[p as int]));
                lemma_upto_update(old_daily, p as int, nd[p as int], n as int);
                assert forall|a: int, b: int| 0 <= a < b < nd.len() implies lex_lt(#[trigger] nd[a].date@, #[trigger] nd[b].date@) by {
                    assert(nd[a].date@ == old_daily[a].date@);
                    assert(nd[b].date@ == old_daily[b].date@);
                }
                lemma_day_counts_at(nd, p as int);
                assert forall|d: Seq<char>| #[trigger] has_day(nd, d) == (has_day(old_daily, d) || d == event.date@) by {
                    if has_day(old_daily, d) {
                        let k = choose|i: int| 0 <= i < old_daily.len() && #[trigger] old_daily[i].date@ == d;
                        assert(nd[k].date@ == d);
                    }
                    if has_day(nd, d) {
                        let k = choose|i: int| 0 <= i < nd.len() && #[trigger] nd[i].date@ == d;
                        assert(old_daily[k].date@ == d);
                    }
                }
                assert forall|d: Seq<char>| d != event.date@ implies #[trigger] day_counts(nd, d) == day_counts(old_daily, d) by {
                    if has_day(nd, d) {
                        let k = day_index(nd, d);
                        lemma_day_counts_at(nd, k);
                        lemma_day_counts_at(old_daily, k);
                        assert(k != p);
                        assert(nd[k] == old_daily[k]);
                    }
                }
            }
        } else {
            let fresh = DailyInputStats {
                date: copy_string(&event.date),
                record_count: 1,
                character_count: event.character_count,
                audio_duration_ms: event.audio_duration_ms,
            };
            proof {
                if has_day(old_daily, event.date@) {
                    let k = choose|i: int| 0 <= i < old_daily.len() && #[trigger] old_daily[i].date@ == event.date@;
                    if k < p {
                        lemma_lex_irreflexive(event.date@);
                    } else if k > p {
                        lemma_lex_total(old_daily[p as int].date@, event.date@);
                        assert(lex_lt(old_daily[p as int].date@, old_daily[k].date@));
                        lemma_lex_transitive(event.date@, old_daily[p as int].date@, event.date@);
                        lemma_lex_irreflexive(event.date@);
                    }
                }
            }
            self.daily.insert(p, fresh);
            proof {
                let nd = self.daily@;
                assert(nd == old_daily.insert(p as int, nd[p as int]));
                lemma_upto_insert(old_daily, p as int, nd[p as int], n + 1);
                assert forall|a: int, b: int| 0 <= a < b < nd.len() implies lex_lt(#[trigger] nd[a].date@, #[trigger] nd[b].date@) by {
                    if b < p {
                        assert(nd[a] == old_daily[a] && nd[b] == old_daily[b]);
                    } else if b == p {
                        assert(nd[a] == old_daily[a]);
                    } else if a < p {
                        assert(nd[a] == old_daily[a] && nd[b] == old_daily[b - 1]);
                        lemma_lex_total(old_daily[b - 1].date@, event.date@);
                        if lex_lt(event.date@, old_daily[b - 1].date@) {
                            lemma_lex_transitive(old_daily[a].date@, event.date@, old_daily[b - 1].date@);
                        }
                    } else if a == p {
                        assert(nd[b] == old_daily[b - 1]);
                        lemma_lex_total(old_daily[b - 1].date@, event.date@);
                    } else {
                        assert(nd[a] == old_daily[a - 1] && nd[b] == old_daily[b - 1]);
                    }
                }
                lemma_day_counts_at(nd, p as int);
                assert forall|d: Seq<char>| #[trigger] has_day(nd, d) == (has_day(old_daily, d) || d == event.date@) by {
                    if has_day(old_daily, d) {
                        let k = choose|i: int| 0 <= i < old_daily.len() && #[trigger] old_daily[i].date@ == d;
                        if k < p {
                            assert(nd[k].date@ == d);
                        } else {
                            assert(nd[k + 1].date@ == d);
                        }
                    }
                    if has_day(nd, d) {
                        let k = choose|i: int| 0 <= i < nd.len() && #[trigger] nd[i].date@ == d;
                        if k < p {
                            assert(old_daily[k].date@ == d);
                        } else if k > p {
                            assert(old_daily[k - 1].date@ == d);
                        }
                    }
                }
                assert forall|d: Seq<char>| d != event.date@ implies #[trigger] day_counts(nd, d) == day_counts(old_daily, d) by {
                    if has_day(nd, d) {
                        let k = day_index(nd, d);
                        lemma_day_counts_at(nd, k);
                        assert(k != p);
                        if k < p {
                            assert(nd[k] == old_daily[k]);
                            lemma_day_counts_at(old_daily, k);
                        } else {
                            assert(nd[k] == old_daily[k - 1]);
                            lemma_day_counts_at(old_daily, k - 1);
                        }
                    }
                }
            }
        }
    }
}

} // verus!
