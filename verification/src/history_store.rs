//! The rules of the history store: which lines pruning and deletion remove,
//! and which recordings go with them.  Files are read and written by the
//! caller; recordings are named by integers that stand for their resolved
//! paths.

use vstd::prelude::*;
use vstd::string::StrSliceExecFns;
use crate::config::RetentionConfig;
use crate::json::{copy_json, find_member, get, get_member, json_text_value, jview, parse_json_text, key_index, lemma_key_index, lemma_key_index_at, lemma_mviews_len, lookup, mviews, JsonValue, JsonView};
use crate::text::{blank, copy_string, is_blank, owned, str_eq, trim, trim_str};

verus! {

/// One line of a history file, as the store's rules see it.
#[derive(Debug, Clone)]
pub struct HistoryLine {
    /// The line as it was read.
    pub raw: String,
    /// Whether the line is JSON at all.
    pub has_value: bool,
    /// When the line is a complete record: its creation time (ms).
    pub created_at: Option<i64>,
    /// When the line is a complete record: when its recording ended (ms).
    pub audio_finished_at: Option<i64>,
    /// The string `id` field of the JSON.
    pub id: Option<String>,
    /// The recording the JSON names, when it lies in a recordings directory.
    pub audio: Option<u64>,
}

/// A file found in the recordings directories.
#[derive(Debug, Clone, Copy)]
pub struct RecordingFile {
    pub file: u64,
    pub bytes: u64,
    /// Last modification (ms), when the platform reports it.
    pub modified_at: Option<i64>,
    /// Whether the name is one the application gives its recordings.
    pub app_managed: bool,
}

/// Whether line `i` is a complete record.
pub open spec fn is_record(lines: Seq<HistoryLine>, i: int) -> bool {
    0 <= i < lines.len() && lines[i].created_at is Some
}

pub open spec fn created(lines: Seq<HistoryLine>, i: int) -> i64 {
    lines[i].created_at.unwrap()
}

/// Record `i` comes before record `j`: it is older, or as old and earlier
/// in the files.
pub open spec fn before(lines: Seq<HistoryLine>, i: int, j: int) -> bool {
    created(lines, i) < created(lines, j) || (created(lines, i) == created(lines, j) && i < j)
}

/// `order` lists every record exactly once, oldest first.
pub open spec fn oldest_first(lines: Seq<HistoryLine>, order: Seq<usize>) -> bool {
    &&& forall|k: int| 0 <= k < order.len() ==> is_record(lines, #[trigger] order[k] as int)
    &&& forall|i: int| is_record(lines, i) ==> exists|k: int| 0 <= k < order.len() && #[trigger] order[k] == i
    &&& forall|a: int, b: int| 0 <= a < b < order.len() ==> before(lines, #[trigger] order[a] as int, #[trigger] order[b] as int)
}

fn not_after(line: &HistoryLine, t: i64) -> (r: bool)
    ensures
        r == (match line.created_at { Some(u) => u <= t, None => true }),
{
    match line.created_at {
        Some(u) => u <= t,
        None => true,
    }
}

/// The records of `lines`, oldest first; records of the same moment keep
/// their order in the files.
pub fn records_oldest_first(lines: &Vec<HistoryLine>) -> (order: Vec<usize>)
    ensures
        oldest_first(lines@, order@),
{
    let mut order: Vec<usize> = Vec::new();
    let mut i: usize = 0;
    while i < lines.len()
        invariant
            i <= lines.len(),
            forall|k: int| 0 <= k < order.len() ==> is_record(lines@, #[trigger] order[k] as int) && order[k] < i,
            forall|x: int| 0 <= x < i && is_record(lines@, x) ==> exists|k: int| 0 <= k < order.len() && #[trigger] order[k] == x,
            forall|a: int, b: int| 0 <= a < b < order.len() ==> before(lines@, #[trigger] order[a] as int, #[trigger] order[b] as int),
        decreases lines.len() - i,
    {
        match lines[i].created_at {
            None => {},
            Some(t) => {
                let mut p: usize = 0;
                while p < order.len() && not_after(&lines[order[p]], t)
                    invariant
                        p <= order.len(),
                        forall|k: int| 0 <= k < order.len() ==> is_record(lines@, #[trigger] order[k] as int) && order[k] < i,
                        lines@[i as int].created_at == Some(t),
                        forall|k: int| 0 <= k < p ==> created(lines@, #[trigger] order[k] as int) <= t,
                    decreases order.len() - p,
                {
                    p = p + 1;
                }
                proof {
                    assert forall|k: int| p <= k < order.len() implies t < created(lines@, #[trigger] order[k] as int) by {
                        if k > p {
                            assert(before(lines@, order[p as int] as int, order[k] as int));
                        }
                    }
                }
                let ghost old_order = order@;
                order.insert(p, i);
                proof {
                    assert forall|k: int| 0 <= k < order.len() implies is_record(lines@, #[trigger] order[k] as int) && order[k] < i + 1 by {
                        if k < p {
                            assert(order[k] == old_order[k]);
                        } else if k > p {
                            assert(order[k] == old_order[k - 1]);
                        }
                    }
                    assert forall|x: int| 0 <= x < i + 1 && is_record(lines@, x) implies exists|k: int| 0 <= k < order.len() && #[trigger] order[k] == x by {
                        if x == i {
                            assert(order[p as int] == x);
                        } else {
                            let k0 = choose|k: int| 0 <= k < old_order.len() && old_order[k] == x;
                            if k0 < p {
                                assert(order[k0] == x);
                            } else {
                                assert(order[k0 + 1] == x);
                            }
                        }
                    }
                    assert forall|a: int, b: int| 0 <= a < b < order.len() implies before(lines@, #[trigger] order[a] as int, #[trigger] order[b] as int) by {
                        if b < p {
                            assert(order[a] == old_order[a] && order[b] == old_order[b]);
                        } else if b == p {
                            assert(order[a] == old_order[a]);
                        } else if a < p {
                            assert(order[a] == old_order[a] && order[b] == old_order[b - 1]);
                        } else if a == p {
                            assert(order[b] == old_order[b - 1]);
                        } else {
                            assert(order[a] == old_order[a - 1] && order[b] == old_order[b - 1]);
                        }
                    }
                }
            },
        }
        i = i + 1;
    }
    order
}

/// The lines removed when the oldest `c` records go.
pub open spec fn drop_oldest(n: int, order: Seq<usize>, c: int) -> Seq<bool> {
    Seq::new(n as nat, |i: int| exists|k: int| 0 <= k < c && order[k] == i)
}

/// How many of the first `m` lines are kept and name recording `a`.
pub open spec fn refs_upto(lines: Seq<HistoryLine>, removed: Seq<bool>, a: u64, m: int) -> nat
    decreases m,
{
    if m <= 0 {
        0
    } else {
        refs_upto(lines, removed, a, m - 1) + (if !removed[m - 1] && lines[m - 1].audio == Some(a) { 1nat } else { 0nat })
    }
}

/// How many kept lines name recording `a`.
pub open spec fn refs(lines: Seq<HistoryLine>, removed: Seq<bool>, a: u64) -> nat {
    refs_upto(lines, removed, a, lines.len() as int)
}

/// Whether a removed line names recording `a`.
pub open spec fn dropped_recording(lines: Seq<HistoryLine>, removed: Seq<bool>, a: u64) -> bool {
    exists|i: int| 0 <= i < lines.len() && removed[i] && #[trigger] lines[i].audio == Some(a)
}

/// Whether `a` is a recording the application manages.
pub open spec fn managed_file(files: Seq<RecordingFile>, a: u64) -> bool {
    exists|j: int| 0 <= j < files.len() && files[j].app_managed && #[trigger] files[j].file == a
}

/// The size of managed recording `a`.
pub open spec fn bytes_of(files: Seq<RecordingFile>, a: u64) -> u64 {
    files[choose|j: int| 0 <= j < files.len() && files[j].app_managed && #[trigger] files[j].file == a].bytes
}

/// No two files share a name.
pub open spec fn distinct_files(files: Seq<RecordingFile>) -> bool {
    forall|j1: int, j2: int| 0 <= j1 < files.len() && 0 <= j2 < files.len() && j1 != j2
        ==> #[trigger] files[j1].file != #[trigger] files[j2].file
}

/// A line that is neither blank nor JSON.
pub open spec fn malformed(line: HistoryLine) -> bool {
    !is_blank(line.raw@) && !line.has_value
}

pub open spec fn any_malformed(lines: Seq<HistoryLine>) -> bool {
    exists|i: int| 0 <= i < lines.len() && malformed(#[trigger] lines[i])
}

/// A managed recording no kept line names, last changed before `cutoff`.
pub open spec fn stale_orphan(files: Seq<RecordingFile>, lines: Seq<HistoryLine>, removed: Seq<bool>, a: u64, cutoff: int) -> bool {
    exists|j: int| 0 <= j < files.len() && files[j].app_managed && #[trigger] files[j].file == a
        && refs(lines, removed, a) == 0 && (files[j].modified_at matches Some(m) && m < cutoff)
}

/// Bytes of the first `m` files that are managed and still named by a kept line.
pub open spec fn kept_sum(lines: Seq<HistoryLine>, files: Seq<RecordingFile>, removed: Seq<bool>, m: int) -> int
    decreases m,
{
    if m <= 0 {
        0
    } else {
        let f = files[m - 1];
        kept_sum(lines, files, removed, m - 1) + (if f.app_managed && refs(lines, removed, f.file) > 0 { f.bytes as int } else { 0 })
    }
}

pub open spec fn capped(x: int) -> u64 {
    if x > u64::MAX { u64::MAX } else { x as u64 }
}

/// The storage the kept records' recordings take (capped at `u64::MAX`).
pub open spec fn kept_bytes(lines: Seq<HistoryLine>, files: Seq<RecordingFile>, removed: Seq<bool>) -> u64 {
    capped(kept_sum(lines, files, removed, files.len() as int))
}

pub open spec fn less_or_zero(p: u64, b: u64) -> u64 {
    if p < b { 0 } else { (p - b) as u64 }
}

/// While the projected storage exceeds the limit, drop further records,
/// oldest first, with each recording that no kept line names any more.
pub open spec fn shrink(
    lines: Seq<HistoryLine>,
    files: Seq<RecordingFile>,
    order: Seq<usize>,
    max_bytes: u64,
    removed: Seq<bool>,
    projected: u64,
    deleted: Set<u64>,
    k: int,
) -> (Seq<bool>, Set<u64>)
    decreases order.len() - k,
{
    if projected > max_bytes && 0 <= k < order.len() {
        let loc = order[k] as int;
        if removed[loc] {
            shrink(lines, files, order, max_bytes, removed, projected, deleted, k + 1)
        } else {
            let r2 = removed.update(loc, true);
            match lines[loc].audio {
                Some(a) => if refs(lines, r2, a) == 0 && managed_file(files, a) {
                    shrink(lines, files, order, max_bytes, r2, less_or_zero(projected, bytes_of(files, a)), deleted.insert(a), k + 1)
                } else {
                    shrink(lines, files, order, max_bytes, r2, projected, deleted, k + 1)
                },
                None => shrink(lines, files, order, max_bytes, r2, projected, deleted, k + 1),
            }
        }
    } else {
        (removed, deleted)
    }
}

/// The grace period of an unreferenced recording (ms).
pub const ORPHAN_GRACE_MS: i64 = 86400000;

/// What pruning removes, given the records oldest first: the oldest
/// beyond the record limit, the recordings only they named, managed
/// recordings nothing names that are older than a day (unless some line
/// is unreadable), then more records while the storage is over its limit.
pub open spec fn prune_outcome(
    lines: Seq<HistoryLine>,
    files: Seq<RecordingFile>,
    max_records: usize,
    max_bytes: u64,
    now: i64,
    order: Seq<usize>,
) -> (Seq<bool>, Set<u64>) {
    let c: int = if order.len() > max_records { order.len() - max_records } else { 0 };
    let r1 = drop_oldest(lines.len() as int, order, c);
    let d1 = Set::new(|a: u64| dropped_recording(lines, r1, a) && refs(lines, r1, a) == 0 && managed_file(files, a));
    let d2 = Set::new(|a: u64| !any_malformed(lines) && stale_orphan(files, lines, r1, a, now - ORPHAN_GRACE_MS));
    shrink(lines, files, order, max_bytes, r1, kept_bytes(lines, files, r1), d1.union(d2), c)
}

/// What pruning decided: which lines go, and which recordings are deleted.
#[derive(Debug, Clone)]
pub struct PrunePlan {
    pub removed: Vec<bool>,
    pub delete: Vec<u64>,
}

/// The set of integers a vector holds.
pub open spec fn held(v: Seq<u64>) -> Set<u64> {
    Set::new(|a: u64| v.contains(a))
}

fn add_unique(v: &mut Vec<u64>, a: u64)
    requires
        old(v)@.no_duplicates(),
    ensures
        final(v)@.no_duplicates(),
        held(final(v)@) == held(old(v)@).insert(a),
{
    let mut i: usize = 0;
    while i < v.len()
        invariant
            i <= v.len(),
            v@.no_duplicates(),
            forall|k: int| 0 <= k < i ==> v@[k] != a,
        decreases v.len() - i,
    {
        if v[i] == a {
            proof {
                assert(v@.contains(a));
                assert(held(v@).insert(a) =~= held(v@));
            }
            return;
        }
        i = i + 1;
    }
    let ghost before = v@;
    v.push(a);
    proof {
        assert forall|x: u64| v@.contains(x) <==> before.contains(x) || x == a by {
            if v@.contains(x) {
                let k = choose|k: int| 0 <= k < v@.len() && v@[k] == x;
                if k < before.len() {
                    assert(before[k] == x);
                }
            }
            if before.contains(x) {
                let k = choose|k: int| 0 <= k < before.len() && before[k] == x;
                assert(v@[k] == x);
            }
            if x == a {
                assert(v@[before.len() as int] == a);
            }
        }
        assert forall|x: u64| #[trigger] held(v@).contains(x) == held(before).insert(a).contains(x) by {}
        assert(held(v@) =~= held(before).insert(a));
    }
}

fn count_refs(lines: &Vec<HistoryLine>, removed: &Vec<bool>, a: u64) -> (r: usize)
    requires
        removed.len() == lines.len(),
    ensures
        r == refs(lines@, removed@, a),
{
    let mut r: usize = 0;
    let mut i: usize = 0;
    while i < lines.len()
        invariant
            i <= lines.len(),
            removed.len() == lines.len(),
            r == refs_upto(lines@, removed@, a, i as int),
            r <= i,
        decreases lines.len() - i,
    {
        if !removed[i] && lines[i].audio == Some(a) {
            r = r + 1;
        }
        i = i + 1;
    }
    r
}

fn managed_size(files: &Vec<RecordingFile>, a: u64) -> (r: Option<u64>)
    requires
        distinct_files(files@),
    ensures
        r is Some <==> managed_file(files@, a),
        r matches Some(b) ==> b == bytes_of(files@, a),
{
    let mut j: usize = 0;
    while j < files.len()
        invariant
            j <= files.len(),
            distinct_files(files@),
            forall|x: int| 0 <= x < j ==> !(files@[x].app_managed && #[trigger] files@[x].file == a),
        decreases files.len() - j,
    {
        if files[j].app_managed && files[j].file == a {
            proof {
                assert(files@[j as int].app_managed && files@[j as int].file == a);
                assert(managed_file(files@, a));
                let c = choose|x: int| 0 <= x < files@.len() && files@[x].app_managed && #[trigger] files@[x].file == a;
                assert(files@[j as int].file == a);
                assert(files@[c].app_managed && files@[c].file == a);
                assert(c == j);
            }
            return Some(files[j].bytes);
        }
        j = j + 1;
    }
    None
}

fn any_malformed_line(lines: &Vec<HistoryLine>) -> (r: bool)
    ensures
        r == any_malformed(lines@),
{
    let mut i: usize = 0;
    while i < lines.len()
        invariant
            i <= lines.len(),
            forall|x: int| 0 <= x < i ==> !malformed(#[trigger] lines@[x]),
        decreases lines.len() - i,
    {
        if !blank(lines[i].raw.as_str()) && !lines[i].has_value {
            assert(malformed(lines@[i as int]));
            return true;
        }
        i = i + 1;
    }
    false
}

/// Whether a line's `id` is `id`.
pub open spec fn names_record(line: HistoryLine, id: Seq<char>) -> bool {
    line.id matches Some(x) && x@ == id
}

/// The lines of record `id`.
pub open spec fn lines_of(lines: Seq<HistoryLine>, id: Seq<char>) -> Seq<bool> {
    Seq::new(lines.len(), |i: int| names_record(lines[i], id))
}

/// How many of the first `m` lines belong to record `id`.
pub open spec fn count_lines_of(lines: Seq<HistoryLine>, id: Seq<char>, m: int) -> nat
    decreases m,
{
    if m <= 0 {
        0
    } else {
        count_lines_of(lines, id, m - 1) + (if names_record(lines[m - 1], id) { 1nat } else { 0nat })
    }
}

/// The recordings that deleting the lines `removed` frees: those a removed
/// line names and no kept line does.
pub open spec fn freed_recordings(lines: Seq<HistoryLine>, removed: Seq<bool>) -> Set<u64> {
    Set::new(|a: u64| dropped_recording(lines, removed, a) && refs(lines, removed, a) == 0)
}

/// What deleting a record decided.
#[derive(Debug, Clone)]
pub struct DeletePlan {
    pub removed: Vec<bool>,
    pub deleted_records: usize,
    pub delete: Vec<u64>,
}

/// What deleting a record did.
#[derive(Debug, Clone, PartialEq, Eq, Structural)]
pub struct DeleteHistoryResult {
    pub deleted_records: usize,
    pub deleted_audio_files: usize,
    pub freed_bytes: u64,
}

/// What a recording cleanup did.
#[derive(Debug, Clone, PartialEq, Eq, Structural)]
pub struct RecordingCleanupResult {
    pub deleted_files: usize,
    pub cleared_history_records: usize,
    pub freed_bytes: u64,
}

/// What a recording cleanup would do.
#[derive(Debug, Clone, PartialEq, Eq, Structural)]
pub struct RecordingCleanupPreview {
    pub recording_files: usize,
    pub recording_bytes: u64,
    pub eligible_files: usize,
    pub eligible_bytes: u64,
}

/// The input counted on one day.
#[derive(Debug, Clone, PartialEq, Eq)]
pub struct DailyInputStats {
    pub date: String,
    pub record_count: u64,
    pub character_count: u64,
    pub audio_duration_ms: u64,
}

/// A line that is a record whose recording ended before `cutoff`.
pub open spec fn ended_before(line: HistoryLine, cutoff: i64) -> bool {
    line.audio_finished_at matches Some(t) && t < cutoff
}

/// Whether some line names recording `a`.
pub open spec fn named(lines: Seq<HistoryLine>, a: u64) -> bool {
    exists|i: int| 0 <= i < lines.len() && #[trigger] lines[i].audio == Some(a)
}

/// The recordings a cleanup before `cutoff` deletes: those named only by
/// records whose recording ended before it, and (unless some line is
/// unreadable) managed recordings no line names, last changed before it.
pub open spec fn cleanup_candidates(lines: Seq<HistoryLine>, files: Seq<RecordingFile>, cutoff: i64) -> Set<u64> {
    Set::new(|a: u64|
        (named(lines, a) && forall|i: int| 0 <= i < lines.len() && #[trigger] lines[i].audio == Some(a) ==> ended_before(lines[i], cutoff))
        || (!any_malformed(lines) && !named(lines, a) && exists|j: int| 0 <= j < files.len() && files[j].app_managed
            && #[trigger] files[j].file == a && (files[j].modified_at matches Some(m) && m < cutoff)))
}

/// The lines whose recording a cleanup removes (their `audio_path`
/// becomes null).
pub open spec fn cleared_lines(lines: Seq<HistoryLine>, files: Seq<RecordingFile>, cutoff: i64) -> Seq<bool> {
    Seq::new(lines.len(), |i: int| ended_before(lines[i], cutoff)
        && (lines[i].audio matches Some(a) && cleanup_candidates(lines, files, cutoff).contains(a)))
}

/// How many of the first `m` flags are set.
pub open spec fn count_set(flags: Seq<bool>, m: int) -> nat
    decreases m,
{
    if m <= 0 { 0 } else { count_set(flags, m - 1) + (if flags[m - 1] { 1nat } else { 0nat }) }
}

/// What a recording cleanup decided.
#[derive(Debug, Clone)]
pub struct CleanupPlan {
    pub cleared: Vec<bool>,
    pub cleared_records: usize,
    pub delete: Vec<u64>,
}

fn named_exec(lines: &Vec<HistoryLine>, a: u64) -> (r: bool)
    ensures
        r == named(lines@, a),
{
    let mut i: usize = 0;
    while i < lines.len()
        invariant
            i <= lines.len(),
            forall|x: int| 0 <= x < i ==> #[trigger] lines@[x].audio != Some(a),
        decreases lines.len() - i,
    {
        if lines[i].audio == Some(a) {
            return true;
        }
        i = i + 1;
    }
    false
}

fn ended_before_exec(line: &HistoryLine, cutoff: i64) -> (r: bool)
    ensures
        r == ended_before(*line, cutoff),
{
    match line.audio_finished_at {
        Some(t) => t < cutoff,
        None => false,
    }
}

/// Whether every line naming `a` is a record that ended before `cutoff`.
fn only_old_names(lines: &Vec<HistoryLine>, a: u64, cutoff: i64) -> (r: bool)
    ensures
        r == forall|i: int| 0 <= i < lines@.len() && #[trigger] lines@[i].audio == Some(a) ==> ended_before(lines@[i], cutoff),
{
    let mut i: usize = 0;
    while i < lines.len()
        invariant
            i <= lines.len(),
            forall|x: int| 0 <= x < i && #[trigger] lines@[x].audio == Some(a) ==> ended_before(lines@[x], cutoff),
        decreases lines.len() - i,
    {
        if lines[i].audio == Some(a) && !ended_before_exec(&lines[i], cutoff) {
            return false;
        }
        i = i + 1;
    }
    true
}

fn held_exec(v: &Vec<u64>, a: u64) -> (r: bool)
    ensures
        r == held(v@).contains(a),
{
    let mut i: usize = 0;
    while i < v.len()
        invariant
            i <= v.len(),
            forall|k: int| 0 <= k < i ==> v@[k] != a,
        decreases v.len() - i,
    {
        if v[i] == a {
            assert(v@.contains(a));
            return true;
        }
        i = i + 1;
    }
    false
}

proof fn lemma_count_set_prefix(a: Seq<bool>, b: Seq<bool>, m: int)
    requires
        0 <= m <= a.len(),
        m <= b.len(),
        forall|k: int| 0 <= k < m ==> a[k] == b[k],
    ensures
        count_set(a, m) == count_set(b, m),
    decreases m,
{
    if m > 0 {
        lemma_count_set_prefix(a, b, m - 1);
    }
}

/// Total bytes of the first `m` files.
pub open spec fn files_sum(files: Seq<RecordingFile>, m: int) -> int
    decreases m,
{
    if m <= 0 { 0 } else { files_sum(files, m - 1) + files[m - 1].bytes }
}

/// Total of the known sizes among the first `m`.
pub open spec fn sizes_sum(sizes: Seq<Option<u64>>, m: int) -> int
    decreases m,
{
    if m <= 0 { 0 } else { sizes_sum(sizes, m - 1) + (match sizes[m - 1] { Some(b) => b as int, None => 0 }) }
}

/// How many of the first `m` sizes are known.
pub open spec fn sizes_known(sizes: Seq<Option<u64>>, m: int) -> nat
    decreases m,
{
    if m <= 0 { 0 } else { sizes_known(sizes, m - 1) + (if sizes[m - 1] is Some { 1nat } else { 0nat }) }
}

/// What retrying a failed record looks at.
#[derive(Debug, Clone)]
pub struct RetryRecord {
    pub id: String,
    pub workflow_error: Option<String>,
    pub raw_text: String,
    pub corrected_text: String,
    pub pasted_text: String,
    pub has_audio: bool,
}

/// Whether the record ended in a workflow error.
pub open spec fn failed_workflow(r: RetryRecord) -> bool {
    match r.workflow_error {
        Some(e) => !is_blank(e@),
        None => false,
    }
}

/// Whether record `i` is the first of id `id` in search order.
pub open spec fn first_with_id(records: Seq<RetryRecord>, id: Seq<char>, i: int) -> bool {
    0 <= i < records.len() && records[i].id@ == id
        && forall|j: int| 0 <= j < i ==> #[trigger] records[j].id@ != id
}

/// The outcome of looking up a record to retry (records in search order:
/// newest first within each file): the index of the first record with the
/// id, if it is a failed workflow without text and with a recording.
pub open spec fn retry_outcome(records: Seq<RetryRecord>, record_id: Seq<char>) -> Result<int, Seq<char>> {
    let id = trim(record_id);
    if id.len() == 0 {
        Err("History record id cannot be empty"@)
    } else if !(exists|i: int| first_with_id(records, id, i)) {
        Err("History record "@ + id + " was not found"@)
    } else {
        let i = choose|i: int| first_with_id(records, id, i);
        let r = records[i];
        if !failed_workflow(r) {
            Err("History record "@ + id + " is not a failed workflow"@)
        } else if !is_blank(r.raw_text@) || !is_blank(r.corrected_text@) || !is_blank(r.pasted_text@) {
            Err("History record "@ + id + " already contains transcription text"@)
        } else if !r.has_audio {
            Err("The recording for history record "@ + id + " is unavailable"@)
        } else {
            Ok(i)
        }
    }
}

fn between(before: &str, middle: &str, after: &str) -> (r: String)
    ensures
        r@ == before@ + middle@ + after@,
{
    let a = crate::text::concat(before, middle);
    crate::text::concat(a.as_str(), after)
}

/// The positions of the visible lines, in reading order.
pub open spec fn visible_positions(flags: Seq<bool>) -> Seq<int>
    decreases flags.len(),
{
    if flags.len() == 0 {
        seq![]
    } else {
        let p = visible_positions(flags.drop_last());
        if flags.last() { p.push(flags.len() - 1) } else { p }
    }
}

/// The page of a list: `limit` items after skipping `offset`.
pub open spec fn page_of(s: Seq<int>, offset: nat, limit: nat) -> Seq<int> {
    let from = if offset < s.len() { offset as int } else { s.len() as int };
    let to = if offset + limit < s.len() { (offset + limit) as int } else { s.len() as int };
    s.subrange(from, to)
}

/// Reads history newest first and picks one page of the visible records
/// (those that parse and are not hidden).
#[derive(Debug, Clone, Copy, PartialEq, Eq, Structural)]
pub struct HistoryPageCursor {
    pub offset: usize,
    pub limit: usize,
    /// Visible records read so far.
    pub visible_count: usize,
    /// Records picked so far.
    pub taken: usize,
}

/// The cursor after reading `flags` (one per line, whether it is a
/// visible record) and the positions it picked.
pub open spec fn cursor_run(flags: Seq<bool>, offset: nat, limit: nat) -> (nat, Seq<int>)
    decreases flags.len(),
{
    if flags.len() == 0 {
        (0, seq![])
    } else {
        let prev = cursor_run(flags.drop_last(), offset, limit);
        if flags.last() {
            let take = prev.0 >= offset && prev.1.len() < limit;
            (prev.0 + 1, if take { prev.1.push(flags.len() - 1) } else { prev.1 })
        } else {
            prev
        }
    }
}

proof fn lemma_cursor_run(flags: Seq<bool>, offset: nat, limit: nat)
    ensures
        cursor_run(flags, offset, limit).0 == visible_positions(flags).len(),
        cursor_run(flags, offset, limit).1 == page_of(visible_positions(flags), offset, limit),
    decreases flags.len(),
{
    if flags.len() > 0 {
        let rest = flags.drop_last();
        lemma_cursor_run(rest, offset, limit);
        let p = visible_positions(rest);
        if flags.last() {
            let q = p.push(flags.len() - 1);
            assert(q.len() == p.len() + 1);
            if p.len() >= offset && page_of(p, offset, limit).len() < limit {
                assert(page_of(q, offset, limit) =~= page_of(p, offset, limit).push(flags.len() - 1));
            } else {
                assert(page_of(q, offset, limit) =~= page_of(p, offset, limit));
            }
        }
    }
}

/// Reading lines newest first and picking records one by one gives the
/// page `offset..offset + limit` of the visible records.
pub proof fn law_history_paging(flags: Seq<bool>, offset: nat, limit: nat)
    ensures
        cursor_run(flags, offset, limit).1 == page_of(visible_positions(flags), offset, limit),
{
    lemma_cursor_run(flags, offset, limit);
}

impl HistoryPageCursor {
    /// A cursor for `limit` records after skipping `offset` visible ones.
    pub fn new(limit: usize, offset: usize) -> (r: Self)
        ensures
            r == (HistoryPageCursor { offset, limit, visible_count: 0, taken: 0 }),
    {
        HistoryPageCursor { offset, limit, visible_count: 0, taken: 0 }
    }

    /// Whether more lines are wanted.
    pub fn wants_more(&self) -> (r: bool)
        ensures
            r == (self.taken < self.limit),
    {
        self.taken < self.limit
    }

    /// Reads one line (whether it is a visible record) and says whether to
    /// keep its record.
    pub fn collect(&mut self, visible: bool) -> (take: bool)
        requires
            old(self).visible_count < usize::MAX,
            old(self).taken < usize::MAX,
        ensures
            take == (visible && old(self).visible_count >= old(self).offset && old(self).taken < old(self).limit),
            final(self).offset == old(self).offset,
            final(self).limit == old(self).limit,
            final(self).visible_count == old(self).visible_count + (if visible { 1usize } else { 0usize }),
            final(self).taken == old(self).taken + (if take { 1usize } else { 0usize }),
    {
        if !visible {
            return false;
        }
        let take = self.visible_count >= self.offset && self.taken < self.limit;
        self.visible_count = self.visible_count + 1;
        if take {
            self.taken = self.taken + 1;
        }
        take
    }
}

/// `m` with member `k` set to `v`: replaced where it is, else appended.
pub open spec fn upsert(m: Seq<(Seq<char>, JsonView)>, k: Seq<char>, v: JsonView) -> Seq<(Seq<char>, JsonView)> {
    match key_index(m, k) {
        Some(x) => m.update(x, (k, v)),
        None => m.push((k, v)),
    }
}

/// `m` with each member of `r` set in turn.
pub open spec fn merge_members(m: Seq<(Seq<char>, JsonView)>, r: Seq<(Seq<char>, JsonView)>) -> Seq<(Seq<char>, JsonView)>
    decreases r.len(),
{
    if r.len() == 0 {
        m
    } else {
        let prev = merge_members(m, r.drop_last());
        upsert(prev, r.last().0, r.last().1)
    }
}

/// Setting member `k` changes what `k` reads and nothing else.
proof fn lemma_upsert_lookup(m: Seq<(Seq<char>, JsonView)>, k: Seq<char>, v: JsonView, k2: Seq<char>)
    ensures
        lookup(upsert(m, k, v), k2) == (if k2 == k { Some(v) } else { lookup(m, k2) }),
{
    lemma_key_index(m, k);
    lemma_key_index(m, k2);
    let m2 = upsert(m, k, v);
    match key_index(m, k) {
        Some(x) => {
            assert(m2 == m.update(x, (k, v)));
            if k2 == k {
                lemma_key_index_at(m2, k, x);
            } else {
                match key_index(m, k2) {
                    Some(y) => {
                        assert forall|q: int| 0 <= q < y implies (#[trigger] m2[q]).0 != k2 by {
                            if q != x {
                                assert(m2[q] == m[q]);
                            }
                        }
                        assert(m2[y] == m[y]);
                        lemma_key_index_at(m2, k2, y);
                    },
                    None => {
                        assert forall|q: int| 0 <= q < m2.len() implies (#[trigger] m2[q]).0 != k2 by {
                            if q != x {
                                assert(m2[q] == m[q]);
                            }
                        }
                        lemma_key_index_at(m2, k2, m2.len() as int);
                    },
                }
            }
        },
        None => {
            assert(m2 == m.push((k, v)));
            if k2 == k {
                assert forall|q: int| 0 <= q < m.len() implies (#[trigger] m2[q]).0 != k by {
                    assert(m2[q] == m[q]);
                }
                lemma_key_index_at(m2, k, m.len() as int);
            } else {
                match key_index(m, k2) {
                    Some(y) => {
                        assert forall|q: int| 0 <= q < y implies (#[trigger] m2[q]).0 != k2 by {
                            assert(m2[q] == m[q]);
                        }
                        assert(m2[y] == m[y]);
                        lemma_key_index_at(m2, k2, y);
                    },
                    None => {
                        assert forall|q: int| 0 <= q < m2.len() implies (#[trigger] m2[q]).0 != k2 by {
                            if q < m.len() {
                                assert(m2[q] == m[q]);
                            }
                        }
                        lemma_key_index_at(m2, k2, m2.len() as int);
                    },
                }
            }
        },
    }
}

/// Writing a replacement over a stored record keeps every field the
/// replacement does not name as the stored record had it.
pub proof fn law_merge_keeps_unreplaced_fields(m: Seq<(Seq<char>, JsonView)>, r: Seq<(Seq<char>, JsonView)>, k: Seq<char>)
    requires
        key_index(r, k) is None,
    ensures
        lookup(merge_members(m, r), k) == lookup(m, k),
    decreases r.len(),
{
    if r.len() > 0 {
        lemma_key_index(r, k);
        let p = r.drop_last();
        assert forall|q: int| 0 <= q < p.len() implies (#[trigger] p[q]).0 != k by {
            assert(p[q] == r[q]);
        }
        lemma_key_index_at(p, k, p.len() as int);
        law_merge_keeps_unreplaced_fields(m, p, k);
        assert(r.last() == r[r.len() - 1]);
        lemma_upsert_lookup(merge_members(m, p), r.last().0, r.last().1, k);
    }
}

/// Writing a replacement whose fields have distinct names over a stored
/// record gives every field of the replacement its new value.
pub proof fn law_merge_sets_replaced_fields(m: Seq<(Seq<char>, JsonView)>, r: Seq<(Seq<char>, JsonView)>, i: int)
    requires
        0 <= i < r.len(),
        forall|a: int, b: int| 0 <= a < b < r.len() ==> (#[trigger] r[a]).0 != (#[trigger] r[b]).0,
    ensures
        lookup(merge_members(m, r), r[i].0) == Some(r[i].1),
    decreases r.len(),
{
    let p = r.drop_last();
    let last = r.len() - 1;
    assert(r.last() == r[last]);
    if i == last {
        lemma_upsert_lookup(merge_members(m, p), r[last].0, r[last].1, r[i].0);
    } else {
        assert forall|a: int, b: int| 0 <= a < b < p.len() implies (#[trigger] p[a]).0 != (#[trigger] p[b]).0 by {
            assert(p[a] == r[a] && p[b] == r[b]);
        }
        assert(p[i] == r[i]);
        law_merge_sets_replaced_fields(m, p, i);
        assert(r[i].0 != r[last].0);
        lemma_upsert_lookup(merge_members(m, p), r[last].0, r[last].1, r[i].0);
    }
}

/// A stored record with the fields of its replacement written over it;
/// fields only the stored record has are kept.
pub open spec fn merge_fields_spec(target: JsonView, replacement: JsonView) -> Result<JsonView, Seq<char>> {
    match target {
        JsonView::Object(m) => match replacement {
            JsonView::Object(r) => Ok(JsonView::Object(merge_members(m, r))),
            _ => Err("Replacement JSON value is not an object"@),
        },
        _ => Err("Stored JSON value is not an object"@),
    }
}

/// Writes the replacement's fields over the stored record.
pub fn merge_json_fields(target: JsonValue, replacement: &JsonValue) -> (r: Result<JsonValue, String>)
    ensures
        match merge_fields_spec(jview(target), jview(*replacement)) {
            Ok(v) => r matches Ok(x) && jview(x) == v,
            Err(e) => r matches Err(x) && x@ == e,
        },
{
    let mut members = match target {
        JsonValue::Object(m) => m,
        _ => return Err(owned("Stored JSON value is not an object")),
    };
    let rm = match replacement {
        JsonValue::Object(r) => r,
        _ => return Err(owned("Replacement JSON value is not an object")),
    };
    let ghost m0 = mviews(members@);
    let ghost rv = mviews(rm@);
    proof {
        lemma_mviews_len(rm@);
    }
    let mut i: usize = 0;
    while i < rm.len()
        invariant
            i <= rm.len(),
            rv == mviews(rm@),
            rv.len() == rm@.len(),
            forall|k: int| 0 <= k < rm@.len() ==> #[trigger] rv[k] == (rm@[k].0@, jview(rm@[k].1)),
            mviews(members@) == merge_members(m0, rv.take(i as int)),
        decreases rm.len() - i,
    {
        let key = copy_string(&rm[i].0);
        let value = copy_json(&rm[i].1);
        let ghost before = members@;
        let ghost mb = mviews(before);
        proof {
            lemma_mviews_len(before);
            assert(rv.take(i + 1).drop_last() =~= rv.take(i as int));
            assert(rv.take(i + 1).last() == rv[i as int]);
        }
        match find_member(&members, key.as_str()) {
            Some(x) => {
                members.set(x, (key, value));
                proof {
                    lemma_mviews_len(members@);
                    assert(mviews(members@) =~= mb.update(x as int, (rv[i as int].0, rv[i as int].1)));
                }
            },
            None => {
                members.push((key, value));
                proof {
                    lemma_mviews_len(members@);
                    assert(mviews(members@) =~= mb.push((rv[i as int].0, rv[i as int].1)));
                }
            },
        }
        i = i + 1;
    }
    assert(rv.take(rm.len() as int) =~= rv);
    Ok(JsonValue::Object(members))
}

/// The history files to read: the current one if it exists, the earlier
/// one if it exists and differs; the current one when neither exists.
pub open spec fn read_paths_spec(path: Seq<char>, legacy: Seq<char>, path_exists: bool, legacy_exists: bool) -> Seq<Seq<char>> {
    let first: Seq<Seq<char>> = if path_exists { seq![path] } else { seq![] };
    let both = if legacy_exists && legacy != path { first.push(legacy) } else { first };
    if both.len() == 0 { seq![path] } else { both }
}

/// Chooses the history files to read.
pub fn history_read_paths(path: &str, legacy: &str, path_exists: bool, legacy_exists: bool) -> (r: Vec<String>)
    ensures
        crate::text::strs(r@) == read_paths_spec(path@, legacy@, path_exists, legacy_exists),
{
    let mut out: Vec<String> = Vec::new();
    if path_exists {
        out.push(owned(path));
    }
    if legacy_exists && !str_eq(legacy, path) {
        out.push(owned(legacy));
    }
    if out.len() == 0 {
        out.push(owned(path));
    }
    assert(crate::text::strs(out@) =~= read_paths_spec(path@, legacy@, path_exists, legacy_exists));
    out
}

/// The recordings directories: the current one, and the earlier one when
/// it differs.
pub fn history_recordings_dirs(current: &str, legacy: &str) -> (r: Vec<String>)
    ensures
        crate::text::strs(r@) == (if legacy@ == current@ { seq![current@] } else { seq![current@, legacy@] }),
{
    let mut out: Vec<String> = Vec::new();
    out.push(owned(current));
    if !str_eq(legacy, current) {
        out.push(owned(legacy));
    }
    assert(crate::text::strs(out@) =~= (if legacy@ == current@ { seq![current@] } else { seq![current@, legacy@] }));
    out
}

/// `r2` removes at least the lines `r1` removes.
pub open spec fn removes_more(r1: Seq<bool>, r2: Seq<bool>) -> bool {
    r1.len() == r2.len() && forall|i: int| 0 <= i < r1.len() && #[trigger] r1[i] ==> r2[i]
}

proof fn lemma_refs_shrink(lines: Seq<HistoryLine>, r1: Seq<bool>, r2: Seq<bool>, a: u64, m: int)
    requires
        removes_more(r1, r2),
        0 <= m <= r1.len(),
        r1.len() == lines.len(),
    ensures
        refs_upto(lines, r2, a, m) <= refs_upto(lines, r1, a, m),
    decreases m,
{
    if m > 0 {
        lemma_refs_shrink(lines, r1, r2, a, m - 1);
        if r1[m - 1] {
            assert(r2[m - 1]);
        }
    }
}

proof fn lemma_shrink_keeps_named(
    lines: Seq<HistoryLine>,
    files: Seq<RecordingFile>,
    order: Seq<usize>,
    max_bytes: u64,
    removed: Seq<bool>,
    projected: u64,
    deleted: Set<u64>,
    k: int,
)
    requires
        oldest_first(lines, order),
        removed.len() == lines.len(),
        forall|a: u64| #[trigger] deleted.contains(a) ==> refs(lines, removed, a) == 0,
    ensures
        removes_more(removed, shrink(lines, files, order, max_bytes, removed, projected, deleted, k).0),
        forall|a: u64| #[trigger] shrink(lines, files, order, max_bytes, removed, projected, deleted, k).1.contains(a)
            ==> refs(lines, shrink(lines, files, order, max_bytes, removed, projected, deleted, k).0, a) == 0,
    decreases order.len() - k,
{
    if projected > max_bytes && 0 <= k < order.len() {
        let loc = order[k] as int;
        assert(is_record(lines, order[k] as int));
        if removed[loc] {
            lemma_shrink_keeps_named(lines, files, order, max_bytes, removed, projected, deleted, k + 1);
        } else {
            let r2 = removed.update(loc, true);
            assert(removes_more(removed, r2));
            assert forall|a: u64| #[trigger] deleted.contains(a) implies refs(lines, r2, a) == 0 by {
                lemma_refs_shrink(lines, removed, r2, a, lines.len() as int);
            }
            match lines[loc].audio {
                Some(a) => if refs(lines, r2, a) == 0 && managed_file(files, a) {
                    let p2 = less_or_zero(projected, bytes_of(files, a));
                    let d2 = deleted.insert(a);
                    lemma_shrink_keeps_named(lines, files, order, max_bytes, r2, p2, d2, k + 1);
                    let out = shrink(lines, files, order, max_bytes, r2, p2, d2, k + 1).0;
                    assert forall|i: int| 0 <= i < removed.len() && #[trigger] removed[i] implies out[i] by {
                        assert(r2[i]);
                    }
                } else {
                    lemma_shrink_keeps_named(lines, files, order, max_bytes, r2, projected, deleted, k + 1);
                    let out = shrink(lines, files, order, max_bytes, r2, projected, deleted, k + 1).0;
                    assert forall|i: int| 0 <= i < removed.len() && #[trigger] removed[i] implies out[i] by {
                        assert(r2[i]);
                    }
                },
                None => {
                    lemma_shrink_keeps_named(lines, files, order, max_bytes, r2, projected, deleted, k + 1);
                    let out = shrink(lines, files, order, max_bytes, r2, projected, deleted, k + 1).0;
                    assert forall|i: int| 0 <= i < removed.len() && #[trigger] removed[i] implies out[i] by {
                        assert(r2[i]);
                    }
                },
            }
        }
    }
}

/// Pruning never deletes a recording that a kept line still names.
pub proof fn law_prune_keeps_named_recordings(
    lines: Seq<HistoryLine>,
    files: Seq<RecordingFile>,
    max_records: usize,
    max_bytes: u64,
    now: i64,
    order: Seq<usize>,
    a: u64,
)
    requires
        oldest_first(lines, order),
        prune_outcome(lines, files, max_records, max_bytes, now, order).1.contains(a),
    ensures
        refs(lines, prune_outcome(lines, files, max_records, max_bytes, now, order).0, a) == 0,
{
    let c: int = if order.len() > max_records { order.len() - max_records } else { 0 };
    let r1 = drop_oldest(lines.len() as int, order, c);
    let d1 = Set::new(|x: u64| dropped_recording(lines, r1, x) && refs(lines, r1, x) == 0 && managed_file(files, x));
    let d2 = Set::new(|x: u64| !any_malformed(lines) && stale_orphan(files, lines, r1, x, now - ORPHAN_GRACE_MS));
    assert forall|x: u64| #[trigger] d1.union(d2).contains(x) implies refs(lines, r1, x) == 0 by {
        if d2.contains(x) {
            assert(stale_orphan(files, lines, r1, x, now - ORPHAN_GRACE_MS));
        }
    }
    lemma_shrink_keeps_named(lines, files, order, max_bytes, r1, kept_bytes(lines, files, r1), d1.union(d2), c);
}

/// How many of the first `m` records (oldest first) are kept.
pub open spec fn kept_records(order: Seq<usize>, removed: Seq<bool>, m: int) -> nat
    decreases m,
{
    if m <= 0 {
        0
    } else {
        kept_records(order, removed, m - 1) + (if removed[order[m - 1] as int] { 0nat } else { 1nat })
    }
}

proof fn lemma_kept_records_shrink(order: Seq<usize>, r1: Seq<bool>, r2: Seq<bool>, m: int)
    requires
        removes_more(r1, r2),
        0 <= m <= order.len(),
        forall|k: int| 0 <= k < order.len() ==> (#[trigger] order[k]) < r1.len(),
    ensures
        kept_records(order, r2, m) <= kept_records(order, r1, m),
    decreases m,
{
    if m > 0 {
        lemma_kept_records_shrink(order, r1, r2, m - 1);
        let i = order[m - 1] as int;
        if r1[i] {
            assert(r2[i]);
        }
    }
}

proof fn lemma_kept_after_drop(order: Seq<usize>, n: int, c: int, m: int)
    requires
        0 <= c,
        0 <= m <= order.len(),
        forall|k: int| 0 <= k < order.len() ==> (#[trigger] order[k]) < n,
    ensures
        kept_records(order, drop_oldest(n, order, c), m) <= m - (if c < m { c } else { m }),
    decreases m,
{
    if m > 0 {
        lemma_kept_after_drop(order, n, c, m - 1);
        if m - 1 < c {
            let i = order[m - 1] as int;
            assert(drop_oldest(n, order, c)[i]) by {
                assert(order[m - 1] == i);
            }
        }
    }
}

/// After pruning, no more records are kept than the record limit allows.
pub proof fn law_prune_respects_record_limit(
    lines: Seq<HistoryLine>,
    files: Seq<RecordingFile>,
    max_records: usize,
    max_bytes: u64,
    now: i64,
    order: Seq<usize>,
)
    requires
        oldest_first(lines, order),
    ensures
        kept_records(order, prune_outcome(lines, files, max_records, max_bytes, now, order).0, order.len() as int) <= max_records,
{
    let c: int = if order.len() > max_records { order.len() - max_records } else { 0 };
    let n = lines.len() as int;
    let r1 = drop_oldest(n, order, c);
    assert forall|k: int| 0 <= k < order.len() implies (#[trigger] order[k]) < n by {
        assert(is_record(lines, order[k] as int));
    }
    lemma_kept_after_drop(order, n, c, order.len() as int);
    let d1 = Set::new(|x: u64| dropped_recording(lines, r1, x) && refs(lines, r1, x) == 0 && managed_file(files, x));
    let d2 = Set::new(|x: u64| !any_malformed(lines) && stale_orphan(files, lines, r1, x, now - ORPHAN_GRACE_MS));
    assert forall|x: u64| #[trigger] d1.union(d2).contains(x) implies refs(lines, r1, x) == 0 by {
        if d2.contains(x) {
            assert(stale_orphan(files, lines, r1, x, now - ORPHAN_GRACE_MS));
        }
    }
    lemma_shrink_keeps_named(lines, files, order, max_bytes, r1, kept_bytes(lines, files, r1), d1.union(d2), c);
    let fin = prune_outcome(lines, files, max_records, max_bytes, now, order).0;
    lemma_kept_records_shrink(order, r1, fin, order.len() as int);
}

/// The records removed are exactly the first `k` of the oldest-first list.
pub open spec fn removed_prefix(order: Seq<usize>, removed: Seq<bool>, k: int) -> bool {
    forall|j: int| 0 <= j < order.len() ==> (#[trigger] removed[order[j] as int] <==> j < k)
}

proof fn lemma_order_distinct(lines: Seq<HistoryLine>, order: Seq<usize>, a: int, b: int)
    requires
        oldest_first(lines, order),
        0 <= a < order.len(),
        0 <= b < order.len(),
        a != b,
    ensures
        order[a] != order[b],
{
    if a < b {
        assert(before(lines, order[a] as int, order[b] as int));
    } else {
        assert(before(lines, order[b] as int, order[a] as int));
    }
}

proof fn lemma_shrink_prefix(
    lines: Seq<HistoryLine>,
    files: Seq<RecordingFile>,
    order: Seq<usize>,
    max_bytes: u64,
    removed: Seq<bool>,
    projected: u64,
    deleted: Set<u64>,
    k: int,
)
    requires
        oldest_first(lines, order),
        removed.len() == lines.len(),
        0 <= k <= order.len(),
        removed_prefix(order, removed, k),
    ensures
        exists|kk: int| k <= kk <= order.len()
            && #[trigger] removed_prefix(order, shrink(lines, files, order, max_bytes, removed, projected, deleted, k).0, kk),
    decreases order.len() - k,
{
    if projected > max_bytes && 0 <= k < order.len() {
        let loc = order[k] as int;
        assert(is_record(lines, order[k] as int));
        assert(!removed[loc]);
        let r2 = removed.update(loc, true);
        assert forall|j: int| 0 <= j < order.len() implies (#[trigger] r2[order[j] as int] <==> j < k + 1) by {
            assert(is_record(lines, order[j] as int));
            if j != k {
                lemma_order_distinct(lines, order, j, k);
            }
        }
        let outer = shrink(lines, files, order, max_bytes, removed, projected, deleted, k).0;
        let (p2, d2) = match lines[loc].audio {
            Some(a) => if refs(lines, r2, a) == 0 && managed_file(files, a) {
                (less_or_zero(projected, bytes_of(files, a)), deleted.insert(a))
            } else {
                (projected, deleted)
            },
            None => (projected, deleted),
        };
        assert(outer == shrink(lines, files, order, max_bytes, r2, p2, d2, k + 1).0);
        lemma_shrink_prefix(lines, files, order, max_bytes, r2, p2, d2, k + 1);
        let inner = shrink(lines, files, order, max_bytes, r2, p2, d2, k + 1).0;
        let kk = choose|kk: int| k + 1 <= kk <= order.len() && #[trigger] removed_prefix(order, inner, kk);
        assert(removed_prefix(order, outer, kk));
    } else {
        assert(removed_prefix(order, shrink(lines, files, order, max_bytes, removed, projected, deleted, k).0, k));
    }
}

proof fn lemma_kept_sum_shrink(lines: Seq<HistoryLine>, files: Seq<RecordingFile>, r1: Seq<bool>, r2: Seq<bool>, m: int)
    requires
        removes_more(r1, r2),
        r1.len() == lines.len(),
        0 <= m <= files.len(),
    ensures
        kept_sum(lines, files, r2, m) <= kept_sum(lines, files, r1, m),
    decreases m,
{
    if m > 0 {
        lemma_kept_sum_shrink(lines, files, r1, r2, m - 1);
        lemma_refs_shrink(lines, r1, r2, files[m - 1].file, lines.len() as int);
    }
}

proof fn lemma_drop_oldest_exact(lines: Seq<HistoryLine>, order: Seq<usize>, c: int, m: int)
    requires
        oldest_first(lines, order),
        0 <= c,
        0 <= m <= order.len(),
    ensures
        kept_records(order, drop_oldest(lines.len() as int, order, c), m) == m - (if c < m { c } else { m }),
        forall|k: int| 0 <= k < order.len() ==> (#[trigger] drop_oldest(lines.len() as int, order, c)[order[k] as int] <==> k < c),
    decreases m,
{
    let n = lines.len() as int;
    let r = drop_oldest(n, order, c);
    assert forall|k: int| 0 <= k < order.len() implies (#[trigger] r[order[k] as int] <==> k < c) by {
        assert(is_record(lines, order[k] as int));
        if k < c {
            assert(order[k] == order[k] as int);
        } else if r[order[k] as int] {
            let j = choose|j: int| 0 <= j < c && order[j] == order[k] as int;
            if j < order.len() && j < k {
                assert(before(lines, order[j] as int, order[k] as int));
            }
        }
    }
    if m > 0 {
        lemma_drop_oldest_exact(lines, order, c, m - 1);
    }
}

/// Pruning removes no more records than the limits require: when all the
/// recordings together fit in the storage limit, pruning keeps as many
/// records as the record limit allows, at most all of them, and the records
/// removed are exactly the oldest ones beyond the limit.
pub proof fn law_prune_removes_only_the_excess(
    lines: Seq<HistoryLine>,
    files: Seq<RecordingFile>,
    max_records: usize,
    max_bytes: u64,
    now: i64,
    order: Seq<usize>,
)
    requires
        oldest_first(lines, order),
        kept_sum(lines, files, Seq::new(lines.len() as nat, |i: int| false), files.len() as int) <= max_bytes,
    ensures
        ({
            let fin = prune_outcome(lines, files, max_records, max_bytes, now, order).0;
            &&& kept_records(order, fin, order.len() as int)
                == (if order.len() > max_records { max_records as int } else { order.len() as int })
            &&& forall|k: int| 0 <= k < order.len() ==>
                (#[trigger] fin[order[k] as int] <==> k + max_records < order.len())
        }),
{
    let c: int = if order.len() > max_records { order.len() - max_records } else { 0 };
    let n = lines.len() as int;
    let r1 = drop_oldest(n, order, c);
    let none = Seq::new(lines.len() as nat, |i: int| false);
    lemma_kept_sum_shrink(lines, files, none, r1, files.len() as int);
    lemma_kept_sum_bounds(lines, files, r1, files.len() as int);
    assert(kept_bytes(lines, files, r1) <= max_bytes);
    let d1 = Set::new(|x: u64| dropped_recording(lines, r1, x) && refs(lines, r1, x) == 0 && managed_file(files, x));
    let d2 = Set::new(|x: u64| !any_malformed(lines) && stale_orphan(files, lines, r1, x, now - ORPHAN_GRACE_MS));
    assert(shrink(lines, files, order, max_bytes, r1, kept_bytes(lines, files, r1), d1.union(d2), c).0 == r1);
    lemma_drop_oldest_exact(lines, order, c, order.len() as int);
}

/// Pruning removes records oldest first: when a record goes, every older
/// record (earlier in the oldest-first list) goes too.
pub proof fn law_prune_removes_oldest_first(
    lines: Seq<HistoryLine>,
    files: Seq<RecordingFile>,
    max_records: usize,
    max_bytes: u64,
    now: i64,
    order: Seq<usize>,
    a: int,
    b: int,
)
    requires
        oldest_first(lines, order),
        0 <= a < b < order.len(),
        prune_outcome(lines, files, max_records, max_bytes, now, order).0[order[b] as int],
    ensures
        prune_outcome(lines, files, max_records, max_bytes, now, order).0[order[a] as int],
{
    let c: int = if order.len() > max_records { order.len() - max_records } else { 0 };
    let n = lines.len() as int;
    let r1 = drop_oldest(n, order, c);
    assert forall|j: int| 0 <= j < order.len() implies (#[trigger] r1[order[j] as int] <==> j < c) by {
        assert(is_record(lines, order[j] as int));
        if r1[order[j] as int] {
            let q = choose|q: int| 0 <= q < c && order[q] == order[j] as int;
            if q != j {
                lemma_order_distinct(lines, order, q, j);
            }
        }
        if j < c {
            assert(order[j] == order[j] as int);
        }
    }
    let d1 = Set::new(|x: u64| dropped_recording(lines, r1, x) && refs(lines, r1, x) == 0 && managed_file(files, x));
    let d2 = Set::new(|x: u64| !any_malformed(lines) && stale_orphan(files, lines, r1, x, now - ORPHAN_GRACE_MS));
    lemma_shrink_prefix(lines, files, order, max_bytes, r1, kept_bytes(lines, files, r1), d1.union(d2), c);
    let fin = prune_outcome(lines, files, max_records, max_bytes, now, order).0;
    let kk = choose|kk: int| c <= kk <= order.len() && #[trigger] removed_prefix(order, fin, kk);
    assert(fin[order[b] as int] <==> b < kk);
    assert(fin[order[a] as int] <==> a < kk);
}

proof fn lemma_shrink_only_records(
    lines: Seq<HistoryLine>,
    files: Seq<RecordingFile>,
    order: Seq<usize>,
    max_bytes: u64,
    removed: Seq<bool>,
    projected: u64,
    deleted: Set<u64>,
    k: int,
)
    requires
        oldest_first(lines, order),
        removed.len() == lines.len(),
        forall|i: int| 0 <= i < removed.len() && #[trigger] removed[i] ==> is_record(lines, i),
    ensures
        shrink(lines, files, order, max_bytes, removed, projected, deleted, k).0.len() == lines.len(),
        forall|i: int| 0 <= i < lines.len() && #[trigger] shrink(lines, files, order, max_bytes, removed, projected, deleted, k).0[i]
            ==> is_record(lines, i),
    decreases order.len() - k,
{
    if projected > max_bytes && 0 <= k < order.len() {
        let loc = order[k] as int;
        assert(is_record(lines, order[k] as int));
        if removed[loc] {
            lemma_shrink_only_records(lines, files, order, max_bytes, removed, projected, deleted, k + 1);
        } else {
            let r2 = removed.update(loc, true);
            match lines[loc].audio {
                Some(a) => if refs(lines, r2, a) == 0 && managed_file(files, a) {
                    lemma_shrink_only_records(lines, files, order, max_bytes, r2, less_or_zero(projected, bytes_of(files, a)), deleted.insert(a), k + 1);
                } else {
                    lemma_shrink_only_records(lines, files, order, max_bytes, r2, projected, deleted, k + 1);
                },
                None => {
                    lemma_shrink_only_records(lines, files, order, max_bytes, r2, projected, deleted, k + 1);
                },
            }
        }
    }
}

/// Pruning removes only records: blank, unreadable and other lines stay.
pub proof fn law_prune_keeps_other_lines(
    lines: Seq<HistoryLine>,
    files: Seq<RecordingFile>,
    max_records: usize,
    max_bytes: u64,
    now: i64,
    order: Seq<usize>,
    i: int,
)
    requires
        oldest_first(lines, order),
        0 <= i < lines.len(),
        lines[i].created_at is None,
    ensures
        !prune_outcome(lines, files, max_records, max_bytes, now, order).0[i],
{
    let c: int = if order.len() > max_records { order.len() - max_records } else { 0 };
    let n = lines.len() as int;
    let r1 = drop_oldest(n, order, c);
    assert forall|x: int| 0 <= x < r1.len() && #[trigger] r1[x] implies is_record(lines, x) by {
        let q = choose|q: int| 0 <= q < c && order[q] == x;
        assert(is_record(lines, order[q] as int));
    }
    let d1 = Set::new(|x: u64| dropped_recording(lines, r1, x) && refs(lines, r1, x) == 0 && managed_file(files, x));
    let d2 = Set::new(|x: u64| !any_malformed(lines) && stale_orphan(files, lines, r1, x, now - ORPHAN_GRACE_MS));
    lemma_shrink_only_records(lines, files, order, max_bytes, r1, kept_bytes(lines, files, r1), d1.union(d2), c);
}

/// Bytes of the first `m` files that are managed.
pub open spec fn managed_sum(files: Seq<RecordingFile>, m: int) -> int
    decreases m,
{
    if m <= 0 {
        0
    } else {
        managed_sum(files, m - 1) + (if files[m - 1].app_managed { files[m - 1].bytes as int } else { 0 })
    }
}

/// Bytes of the first `m` files that are managed and named `a`.
pub open spec fn managed_bytes_of(files: Seq<RecordingFile>, a: u64, m: int) -> int
    decreases m,
{
    if m <= 0 {
        0
    } else {
        managed_bytes_of(files, a, m - 1) + (if files[m - 1].app_managed && files[m - 1].file == a { files[m - 1].bytes as int } else { 0 })
    }
}

proof fn lemma_kept_sum_bounds(lines: Seq<HistoryLine>, files: Seq<RecordingFile>, removed: Seq<bool>, m: int)
    requires
        0 <= m <= files.len(),
    ensures
        0 <= kept_sum(lines, files, removed, m) <= managed_sum(files, m),
    decreases m,
{
    if m > 0 {
        lemma_kept_sum_bounds(lines, files, removed, m - 1);
    }
}

/// How many kept lines name `b` once line `loc` is removed too.
proof fn lemma_refs_remove_one(lines: Seq<HistoryLine>, removed: Seq<bool>, loc: int, b: u64, m: int)
    requires
        removed.len() == lines.len(),
        0 <= loc < lines.len(),
        !removed[loc],
        0 <= m <= lines.len(),
    ensures
        refs_upto(lines, removed.update(loc, true), b, m)
            == refs_upto(lines, removed, b, m) - (if loc < m && lines[loc].audio == Some(b) { 1int } else { 0int }),
    decreases m,
{
    if m > 0 {
        lemma_refs_remove_one(lines, removed, loc, b, m - 1);
    }
}

/// The kept storage is the same under two removals that keep the same
/// managed files named.
proof fn lemma_kept_sum_same(lines: Seq<HistoryLine>, files: Seq<RecordingFile>, r1: Seq<bool>, r2: Seq<bool>, m: int)
    requires
        0 <= m <= files.len(),
        forall|j: int| 0 <= j < m ==> ((#[trigger] files[j]).app_managed && refs(lines, r1, files[j].file) > 0)
            == (files[j].app_managed && refs(lines, r2, files[j].file) > 0),
    ensures
        kept_sum(lines, files, r1, m) == kept_sum(lines, files, r2, m),
    decreases m,
{
    if m > 0 {
        lemma_kept_sum_same(lines, files, r1, r2, m - 1);
        assert(files[m - 1] == files[m - 1]);
    }
}

/// The kept storage loses the managed file `a` once no kept line names it.
proof fn lemma_kept_sum_drop(lines: Seq<HistoryLine>, files: Seq<RecordingFile>, r1: Seq<bool>, r2: Seq<bool>, a: u64, m: int)
    requires
        0 <= m <= files.len(),
        refs(lines, r1, a) > 0,
        refs(lines, r2, a) == 0,
        forall|j: int| 0 <= j < m && (#[trigger] files[j]).file != a ==> (files[j].app_managed && refs(lines, r1, files[j].file) > 0)
            == (files[j].app_managed && refs(lines, r2, files[j].file) > 0),
    ensures
        kept_sum(lines, files, r2, m) == kept_sum(lines, files, r1, m) - managed_bytes_of(files, a, m),
    decreases m,
{
    if m > 0 {
        lemma_kept_sum_drop(lines, files, r1, r2, a, m - 1);
        assert(files[m - 1] == files[m - 1]);
    }
}

/// With distinct names, the managed file `a` is counted once.
proof fn lemma_managed_bytes_of(files: Seq<RecordingFile>, a: u64, m: int)
    requires
        distinct_files(files),
        0 <= m <= files.len(),
    ensures
        managed_bytes_of(files, a, m) == (if exists|j: int| 0 <= j < m && files[j].app_managed && #[trigger] files[j].file == a {
            files[choose|j: int| 0 <= j < m && files[j].app_managed && #[trigger] files[j].file == a].bytes as int
        } else {
            0int
        }),
    decreases m,
{
    if m > 0 {
        lemma_managed_bytes_of(files, a, m - 1);
        let last = files[m - 1];
        if last.app_managed && last.file == a {
            assert(files[m - 1].file == a);
            if exists|j: int| 0 <= j < m - 1 && files[j].app_managed && #[trigger] files[j].file == a {
                let j = choose|j: int| 0 <= j < m - 1 && files[j].app_managed && #[trigger] files[j].file == a;
                assert(files[j].file != files[m - 1].file);
            }
            let c = choose|j: int| 0 <= j < m && files[j].app_managed && #[trigger] files[j].file == a;
            if c != m - 1 {
                assert(files[c].file != files[m - 1].file);
            }
        } else {
            if exists|j: int| 0 <= j < m && files[j].app_managed && #[trigger] files[j].file == a {
                let c = choose|j: int| 0 <= j < m && files[j].app_managed && #[trigger] files[j].file == a;
                assert(c != m - 1);
                assert(exists|j: int| 0 <= j < m - 1 && files[j].app_managed && #[trigger] files[j].file == a);
                let c2 = choose|j: int| 0 <= j < m - 1 && files[j].app_managed && #[trigger] files[j].file == a;
                if c != c2 {
                    assert(files[c].file != files[c2].file);
                }
            } else {
                if exists|j: int| 0 <= j < m - 1 && files[j].app_managed && #[trigger] files[j].file == a {
                    let c2 = choose|j: int| 0 <= j < m - 1 && files[j].app_managed && #[trigger] files[j].file == a;
                    assert(files[c2].file == a);
                }
            }
        }
    }
}

/// Removing record `loc` changes the kept storage by what `shrink` takes
/// off its projection.
proof fn lemma_kept_sum_step(lines: Seq<HistoryLine>, files: Seq<RecordingFile>, removed: Seq<bool>, loc: int)
    requires
        distinct_files(files),
        removed.len() == lines.len(),
        0 <= loc < lines.len(),
        !removed[loc],
    ensures
        ({
            let r2 = removed.update(loc, true);
            let before = kept_sum(lines, files, removed, files.len() as int);
            let after = kept_sum(lines, files, r2, files.len() as int);
            match lines[loc].audio {
                Some(a) => if refs(lines, r2, a) == 0 && managed_file(files, a) {
                    after == before - bytes_of(files, a) && bytes_of(files, a) <= before
                } else {
                    after == before
                },
                None => after == before,
            }
        }),
{
    let r2 = removed.update(loc, true);
    let n = files.len() as int;
    let ln = lines.len() as int;
    assert forall|b: u64| lines[loc].audio != Some(b) implies #[trigger] refs(lines, r2, b) == refs(lines, removed, b) by {
        lemma_refs_remove_one(lines, removed, loc, b, ln);
    }
    match lines[loc].audio {
        Some(a) => {
            lemma_refs_remove_one(lines, removed, loc, a, ln);
            if refs(lines, r2, a) == 0 {
                assert forall|j: int| 0 <= j < n && (#[trigger] files[j]).file != a implies (files[j].app_managed && refs(lines, removed, files[j].file) > 0)
                    == (files[j].app_managed && refs(lines, r2, files[j].file) > 0) by {
                    assert(refs(lines, r2, files[j].file) == refs(lines, removed, files[j].file));
                }
                lemma_kept_sum_drop(lines, files, removed, r2, a, n);
                lemma_managed_bytes_of(files, a, n);
                lemma_kept_sum_bounds(lines, files, r2, n);
                if managed_file(files, a) {
                    let j = choose|j: int| 0 <= j < files.len() && files[j].app_managed && #[trigger] files[j].file == a;
                    assert(files[j].file == a);
                } else {
                    assert(!(exists|j: int| 0 <= j < n && files[j].app_managed && #[trigger] files[j].file == a));
                }
            } else {
                assert forall|j: int| 0 <= j < n implies ((#[trigger] files[j]).app_managed && refs(lines, removed, files[j].file) > 0)
                    == (files[j].app_managed && refs(lines, r2, files[j].file) > 0) by {
                    if files[j].file != a {
                        assert(refs(lines, r2, files[j].file) == refs(lines, removed, files[j].file));
                    }
                }
                lemma_kept_sum_same(lines, files, removed, r2, n);
            }
        },
        None => {
            assert forall|j: int| 0 <= j < n implies ((#[trigger] files[j]).app_managed && refs(lines, removed, files[j].file) > 0)
                == (files[j].app_managed && refs(lines, r2, files[j].file) > 0) by {
                assert(refs(lines, r2, files[j].file) == refs(lines, removed, files[j].file));
            }
            lemma_kept_sum_same(lines, files, removed, r2, n);
        },
    }
}

proof fn lemma_shrink_storage(
    lines: Seq<HistoryLine>,
    files: Seq<RecordingFile>,
    order: Seq<usize>,
    max_bytes: u64,
    removed: Seq<bool>,
    projected: u64,
    deleted: Set<u64>,
    k: int,
)
    requires
        oldest_first(lines, order),
        distinct_files(files),
        removed.len() == lines.len(),
        0 <= k,
        projected == kept_sum(lines, files, removed, files.len() as int),
    ensures
        ({
            let out = shrink(lines, files, order, max_bytes, removed, projected, deleted, k).0;
            &&& removes_more(removed, out)
            &&& (kept_sum(lines, files, out, files.len() as int) <= max_bytes
                || forall|k2: int| k <= k2 < order.len() ==> #[trigger] out[order[k2] as int])
        }),
    decreases order.len() - k,
{
    let out = shrink(lines, files, order, max_bytes, removed, projected, deleted, k).0;
    if projected > max_bytes && 0 <= k < order.len() {
        let loc = order[k] as int;
        assert(is_record(lines, order[k] as int));
        if removed[loc] {
            lemma_shrink_storage(lines, files, order, max_bytes, removed, projected, deleted, k + 1);
        } else {
            let r2 = removed.update(loc, true);
            lemma_kept_sum_step(lines, files, removed, loc);
            let (p2, d2) = match lines[loc].audio {
                Some(a) => if refs(lines, r2, a) == 0 && managed_file(files, a) {
                    (less_or_zero(projected, bytes_of(files, a)), deleted.insert(a))
                } else {
                    (projected, deleted)
                },
                None => (projected, deleted),
            };
            assert(out == shrink(lines, files, order, max_bytes, r2, p2, d2, k + 1).0);
            lemma_shrink_storage(lines, files, order, max_bytes, r2, p2, d2, k + 1);
            assert(removes_more(removed, r2));
            assert forall|i: int| 0 <= i < removed.len() && #[trigger] removed[i] implies out[i] by {
                assert(r2[i]);
            }
            assert(r2[loc]);
        }
    }
}

/// `kept_records` is zero when every listed record is removed.
proof fn lemma_no_kept_records(order: Seq<usize>, removed: Seq<bool>, m: int)
    requires
        0 <= m <= order.len(),
        forall|k: int| 0 <= k < m ==> #[trigger] removed[order[k] as int],
    ensures
        kept_records(order, removed, m) == 0,
    decreases m,
{
    if m > 0 {
        lemma_no_kept_records(order, removed, m - 1);
        assert(removed[order[m - 1] as int]);
    }
}

/// After pruning, the recordings that kept lines name fit in the storage
/// limit, unless no record is left.  (The sizes of the managed recordings
/// must add up to at most `u64::MAX`; the storage is counted in a `u64`.)
pub proof fn law_prune_respects_storage_limit(
    lines: Seq<HistoryLine>,
    files: Seq<RecordingFile>,
    max_records: usize,
    max_bytes: u64,
    now: i64,
    order: Seq<usize>,
)
    requires
        oldest_first(lines, order),
        distinct_files(files),
        managed_sum(files, files.len() as int) <= u64::MAX,
    ensures
        ({
            let fin = prune_outcome(lines, files, max_records, max_bytes, now, order).0;
            kept_sum(lines, files, fin, files.len() as int) <= max_bytes
                || kept_records(order, fin, order.len() as int) == 0
        }),
{
    let c: int = if order.len() > max_records { order.len() - max_records } else { 0 };
    let n = lines.len() as int;
    let r1 = drop_oldest(n, order, c);
    let d1 = Set::new(|x: u64| dropped_recording(lines, r1, x) && refs(lines, r1, x) == 0 && managed_file(files, x));
    let d2 = Set::new(|x: u64| !any_malformed(lines) && stale_orphan(files, lines, r1, x, now - ORPHAN_GRACE_MS));
    lemma_kept_sum_bounds(lines, files, r1, files.len() as int);
    assert(kept_bytes(lines, files, r1) == kept_sum(lines, files, r1, files.len() as int));
    lemma_shrink_storage(lines, files, order, max_bytes, r1, kept_bytes(lines, files, r1), d1.union(d2), c);
    let fin = prune_outcome(lines, files, max_records, max_bytes, now, order).0;
    if kept_sum(lines, files, fin, files.len() as int) > max_bytes {
        assert forall|k: int| 0 <= k < order.len() implies #[trigger] fin[order[k] as int] by {
            if k < c {
                assert(is_record(lines, order[k] as int));
                assert(r1[order[k] as int]) by {
                    assert(order[k] == order[k] as int);
                }
            }
        }
        lemma_no_kept_records(order, fin, order.len() as int);
    }
}

/// Deleting a record never deletes a recording another kept line names.
pub proof fn law_delete_keeps_named_recordings(lines: Seq<HistoryLine>, id: Seq<char>, a: u64)
    requires
        freed_recordings(lines, lines_of(lines, id)).contains(a),
    ensures
        refs(lines, lines_of(lines, id), a) == 0,
        dropped_recording(lines, lines_of(lines, id), a),
{
}

/// A cleanup deletes a recording only when every line that names it is a
/// record whose recording ended before the cutoff.
pub proof fn law_cleanup_spares_recent_recordings(lines: Seq<HistoryLine>, files: Seq<RecordingFile>, cutoff: i64, a: u64, i: int)
    requires
        cleanup_candidates(lines, files, cutoff).contains(a),
        0 <= i < lines.len(),
        lines[i].audio == Some(a),
    ensures
        ended_before(lines[i], cutoff),
{
    if !(named(lines, a) && forall|j: int| 0 <= j < lines.len() && #[trigger] lines[j].audio == Some(a) ==> ended_before(lines[j], cutoff)) {
        assert(named(lines, a));
    }
}

/// The history store's rules.  The store itself lives in files that the
/// caller reads and rewrites.
pub struct HistoryStore;

impl HistoryStore {
    /// Applies the retention limits to the history lines of all files (in
    /// file order) and the recordings found: see `prune_outcome`.
    pub fn prune(retention: &RetentionConfig, lines: &Vec<HistoryLine>, files: &Vec<RecordingFile>, now: i64) -> (plan: PrunePlan)
        requires
            distinct_files(files@),
            now >= i64::MIN + ORPHAN_GRACE_MS,
        ensures
            plan.delete@.no_duplicates(),
            exists|order: Seq<usize>| oldest_first(lines@, order)
                && prune_outcome(lines@, files@, retention.max_history_records, retention.max_storage_bytes, now, order)
                    == (plan.removed@, held(plan.delete@)),
    {
        let order = records_oldest_first(lines);
        let n = lines.len();
        let c = order.len().saturating_sub(retention.max_history_records);
        let ghost cc: int = if order@.len() > retention.max_history_records { order@.len() - retention.max_history_records } else { 0 };
        assert(c == cc);

        let mut removed: Vec<bool> = Vec::new();
        let mut i: usize = 0;
        while i < n
            invariant
                i <= n,
                n == lines.len(),
                removed@.len() == i,
                forall|x: int| 0 <= x < i ==> !removed@[x],
            decreases n - i,
        {
            removed.push(false);
            i = i + 1;
        }
        let mut k: usize = 0;
        while k < c
            invariant
                k <= c <= order.len(),
                n == lines.len(),
                oldest_first(lines@, order@),
                removed@ =~= drop_oldest(n as int, order@, k as int),
            decreases c - k,
        {
            let loc = order[k];
            assert(is_record(lines@, order@[k as int] as int));
            removed.set(loc, true);
            proof {
                assert forall|x: int| 0 <= x < n implies #[trigger] removed@[x] == drop_oldest(n as int, order@, k + 1)[x] by {
                    if x != loc {
                        if exists|q: int| 0 <= q < k + 1 && order@[q] == x {
                            let q = choose|q: int| 0 <= q < k + 1 && order@[q] == x;
                            assert(q != k);
                        }
                    } else {
                        assert(order@[k as int] == x);
                    }
                }
            }
            k = k + 1;
        }
        let ghost r1 = removed@;

        let mut delete: Vec<u64> = Vec::new();
        let mut i: usize = 0;
        while i < n
            invariant
                i <= n,
                n == lines.len(),
                removed@ == r1,
                r1.len() == n,
                distinct_files(files@),
                delete@.no_duplicates(),
                held(delete@) =~= Set::new(|a: u64| (exists|x: int| 0 <= x < i && r1[x] && #[trigger] lines@[x].audio == Some(a))
                    && refs(lines@, r1, a) == 0 && managed_file(files@, a)),
            decreases n - i,
        {
            if removed[i] {
                match lines[i].audio {
                    Some(a) => {
                        if count_refs(lines, &removed, a) == 0 && managed_size(files, a).is_some() {
                            add_unique(&mut delete, a);
                        }
                    },
                    None => {},
                }
            }
            proof {
                assert forall|a: u64| #[trigger] held(delete@).contains(a) == ((exists|x: int| 0 <= x < i + 1 && r1[x] && #[trigger] lines@[x].audio == Some(a))
                    && refs(lines@, r1, a) == 0 && managed_file(files@, a)) by {
                    if r1[i as int] && lines@[i as int].audio == Some(a) {
                        assert(exists|x: int| 0 <= x < i + 1 && r1[x] && #[trigger] lines@[x].audio == Some(a));
                    }
                }
            }
            i = i + 1;
        }
        let ghost d1 = Set::new(|a: u64| dropped_recording(lines@, r1, a) && refs(lines@, r1, a) == 0 && managed_file(files@, a));
        assert(held(delete@) =~= d1);

        let any_bad = any_malformed_line(lines);
        let cutoff = now - ORPHAN_GRACE_MS;
        let mut j: usize = 0;
        while j < files.len()
            invariant
                j <= files.len(),
                n == lines.len(),
                removed@ == r1,
                r1.len() == n,
                any_bad == any_malformed(lines@),
                cutoff == now - ORPHAN_GRACE_MS,
                distinct_files(files@),
                delete@.no_duplicates(),
                held(delete@) =~= d1.union(Set::new(|a: u64| !any_malformed(lines@) && exists|y: int| 0 <= y < j && files@[y].app_managed
                    && #[trigger] files@[y].file == a && refs(lines@, r1, a) == 0 && (files@[y].modified_at matches Some(m) && m < cutoff))),
            decreases files.len() - j,
        {
            let f = files[j];
            if !any_bad && f.app_managed && count_refs(lines, &removed, f.file) == 0 {
                match f.modified_at {
                    Some(m) => {
                        if m < cutoff {
                            add_unique(&mut delete, f.file);
                        }
                    },
                    None => {},
                }
            }
            proof {
                assert forall|a: u64| #[trigger] held(delete@).contains(a) == d1.union(Set::new(|a: u64| !any_malformed(lines@) && exists|y: int| 0 <= y < j + 1 && files@[y].app_managed
                    && #[trigger] files@[y].file == a && refs(lines@, r1, a) == 0 && (files@[y].modified_at matches Some(m) && m < cutoff))).contains(a) by {
                    if files@[j as int].file == a {
                        assert(files@[j as int] == f);
                    }
                }
            }
            j = j + 1;
        }
        let ghost d2 = Set::new(|a: u64| !any_malformed(lines@) && stale_orphan(files@, lines@, r1, a, now - ORPHAN_GRACE_MS));
        assert(held(delete@) =~= d1.union(d2));

        let mut projected: u64 = 0;
        let mut j: usize = 0;
        while j < files.len()
            invariant
                j <= files.len(),
                n == lines.len(),
                removed@ == r1,
                r1.len() == n,
                kept_sum(lines@, files@, r1, j as int) >= 0,
                projected == capped(kept_sum(lines@, files@, r1, j as int)),
            decreases files.len() - j,
        {
            let f = files[j];
            if f.app_managed && count_refs(lines, &removed, f.file) > 0 {
                projected = projected.saturating_add(f.bytes);
            }
            j = j + 1;
        }

        let ghost target = prune_outcome(lines@, files@, retention.max_history_records, retention.max_storage_bytes, now, order@);
        assert(drop_oldest(lines@.len() as int, order@, cc) == r1);
        assert(target == shrink(lines@, files@, order@, retention.max_storage_bytes, removed@, projected, held(delete@), k as int));

        let max_bytes = retention.max_storage_bytes;
        while projected > max_bytes && k < order.len()
            invariant
                k <= order.len(),
                n == lines.len(),
                removed@.len() == n,
                oldest_first(lines@, order@),
                distinct_files(files@),
                delete@.no_duplicates(),
                max_bytes == retention.max_storage_bytes,
                target == shrink(lines@, files@, order@, max_bytes, removed@, projected, held(delete@), k as int),
            decreases order.len() - k,
        {
            let loc = order[k];
            assert(is_record(lines@, order@[k as int] as int));
            if !removed[loc] {
                removed.set(loc, true);
                match lines[loc].audio {
                    Some(a) => {
                        if count_refs(lines, &removed, a) == 0 {
                            match managed_size(files, a) {
                                Some(b) => {
                                    projected = if projected < b { 0 } else { projected - b };
                                    add_unique(&mut delete, a);
                                },
                                None => {},
                            }
                        }
                    },
                    None => {},
                }
            }
            k = k + 1;
        }
        proof {
            assert(order@.len() >= cc);
        }
        PrunePlan { removed, delete }
    }


    /// The recordings a cleanup before `cutoff` deletes, and the record
    /// lines that lose their recording: see `cleanup_candidates`.
    pub fn cleanup_recordings_before(lines: &Vec<HistoryLine>, files: &Vec<RecordingFile>, cutoff: i64) -> (plan: CleanupPlan)
        ensures
            plan.delete@.no_duplicates(),
            held(plan.delete@) == cleanup_candidates(lines@, files@, cutoff),
            plan.cleared@ == cleared_lines(lines@, files@, cutoff),
            plan.cleared_records == count_set(plan.cleared@, lines@.len() as int),
    {
        let ghost cand = cleanup_candidates(lines@, files@, cutoff);
        let mut delete: Vec<u64> = Vec::new();
        let mut i: usize = 0;
        while i < lines.len()
            invariant
                i <= lines.len(),
                cand == cleanup_candidates(lines@, files@, cutoff),
                delete@.no_duplicates(),
                held(delete@) =~= Set::new(|a: u64| (exists|x: int| 0 <= x < i && #[trigger] lines@[x].audio == Some(a))
                    && forall|y: int| 0 <= y < lines@.len() && #[trigger] lines@[y].audio == Some(a) ==> ended_before(lines@[y], cutoff)),
            decreases lines.len() - i,
        {
            match lines[i].audio {
                Some(a) => {
                    if only_old_names(lines, a, cutoff) {
                        add_unique(&mut delete, a);
                    }
                },
                None => {},
            }
            proof {
                assert forall|a: u64| #[trigger] held(delete@).contains(a) == ((exists|x: int| 0 <= x < i + 1 && #[trigger] lines@[x].audio == Some(a))
                    && forall|y: int| 0 <= y < lines@.len() && #[trigger] lines@[y].audio == Some(a) ==> ended_before(lines@[y], cutoff)) by {
                    if lines@[i as int].audio == Some(a) {
                        assert(exists|x: int| 0 <= x < i + 1 && #[trigger] lines@[x].audio == Some(a));
                    }
                }
            }
            i = i + 1;
        }
        let ghost first = held(delete@);
        let any_bad = any_malformed_line(lines);
        let mut j: usize = 0;
        while j < files.len()
            invariant
                j <= files.len(),
                any_bad == any_malformed(lines@),
                delete@.no_duplicates(),
                held(delete@) =~= first.union(Set::new(|a: u64| !any_malformed(lines@) && !named(lines@, a)
                    && exists|y: int| 0 <= y < j && files@[y].app_managed && #[trigger] files@[y].file == a
                        && (files@[y].modified_at matches Some(m) && m < cutoff))),
            decreases files.len() - j,
        {
            let f = files[j];
            if !any_bad && f.app_managed && !named_exec(lines, f.file) {
                match f.modified_at {
                    Some(m) => {
                        if m < cutoff {
                            add_unique(&mut delete, f.file);
                        }
                    },
                    None => {},
                }
            }
            proof {
                assert forall|a: u64| #[trigger] held(delete@).contains(a) == first.union(Set::new(|a: u64| !any_malformed(lines@) && !named(lines@, a)
                    && exists|y: int| 0 <= y < j + 1 && files@[y].app_managed && #[trigger] files@[y].file == a
                        && (files@[y].modified_at matches Some(m) && m < cutoff))).contains(a) by {
                    if files@[j as int].file == a {
                        assert(files@[j as int] == f);
                    }
                }
            }
            j = j + 1;
        }
        proof {
            assert forall|a: u64| #[trigger] held(delete@).contains(a) == cand.contains(a) by {
                if (exists|x: int| 0 <= x < lines@.len() && #[trigger] lines@[x].audio == Some(a)) {
                    assert(named(lines@, a));
                }
            }
            assert(held(delete@) =~= cand);
        }
        let mut cleared: Vec<bool> = Vec::new();
        let mut count: usize = 0;
        let mut i: usize = 0;
        while i < lines.len()
            invariant
                i <= lines.len(),
                cand == cleanup_candidates(lines@, files@, cutoff),
                held(delete@) == cand,
                cleared@.len() == i,
                forall|x: int| 0 <= x < i ==> #[trigger] cleared@[x] == cleared_lines(lines@, files@, cutoff)[x],
                count == count_set(cleared@, i as int),
                count <= i,
            decreases lines.len() - i,
        {
            let hit = ended_before_exec(&lines[i], cutoff) && match lines[i].audio {
                Some(a) => held_exec(&delete, a),
                None => false,
            };
            let ghost before = cleared@;
            cleared.push(hit);
            proof {
                lemma_count_set_prefix(cleared@, before, i as int);
            }
            count = count + if hit { 1usize } else { 0usize };
            i = i + 1;
        }
        assert(cleared@ =~= cleared_lines(lines@, files@, cutoff));
        CleanupPlan { cleared, cleared_records: count, delete }
    }


    /// What a cleanup would free: all recordings found, and those of the
    /// candidates that are still regular files (`None` for the others).
    pub fn preview_recording_cleanup(files: &Vec<RecordingFile>, candidate_sizes: &Vec<Option<u64>>) -> (r: RecordingCleanupPreview)
        ensures
            r.recording_files == files@.len(),
            r.recording_bytes == capped(files_sum(files@, files@.len() as int)),
            r.eligible_files == sizes_known(candidate_sizes@, candidate_sizes@.len() as int),
            r.eligible_bytes == capped(sizes_sum(candidate_sizes@, candidate_sizes@.len() as int)),
    {
        let mut total: u64 = 0;
        let mut j: usize = 0;
        while j < files.len()
            invariant
                j <= files.len(),
                files_sum(files@, j as int) >= 0,
                total == capped(files_sum(files@, j as int)),
            decreases files.len() - j,
        {
            total = total.saturating_add(files[j].bytes);
            j = j + 1;
        }
        let mut eligible: usize = 0;
        let mut bytes: u64 = 0;
        let mut k: usize = 0;
        while k < candidate_sizes.len()
            invariant
                k <= candidate_sizes.len(),
                eligible == sizes_known(candidate_sizes@, k as int),
                eligible <= k,
                sizes_sum(candidate_sizes@, k as int) >= 0,
                bytes == capped(sizes_sum(candidate_sizes@, k as int)),
            decreases candidate_sizes.len() - k,
        {
            match candidate_sizes[k] {
                Some(b) => {
                    bytes = bytes.saturating_add(b);
                    eligible = eligible + 1;
                },
                None => {},
            }
            k = k + 1;
        }
        RecordingCleanupPreview {
            recording_files: files.len(),
            recording_bytes: total,
            eligible_files: eligible,
            eligible_bytes: bytes,
        }
    }


    /// Finds the record to retry: see `retry_outcome`.
    pub fn load_retryable(record_id: &str, records: &Vec<RetryRecord>) -> (r: Result<usize, String>)
        ensures
            match retry_outcome(records@, record_id@) {
                Ok(i) => r == Ok::<usize, String>(i as usize),
                Err(m) => r matches Err(e) && e@ == m,
            },
    {
        let id = trim_str(record_id);
        if blank(record_id) {
            return Err(owned("History record id cannot be empty"));
        }
        let mut i: usize = 0;
        while i < records.len()
            invariant
                i <= records.len(),
                id@ == trim(record_id@),
                !is_blank(record_id@),
                forall|j: int| 0 <= j < i ==> #[trigger] records@[j].id@ != id@,
            decreases records.len() - i,
        {
            if str_eq(records[i].id.as_str(), id.as_str()) {
                proof {
                    assert(first_with_id(records@, id@, i as int));
                    let c = choose|k: int| first_with_id(records@, id@, k);
                    if c < i {
                        assert(records@[c].id@ != id@);
                    } else if c > i {
                        assert(records@[i as int].id@ != id@);
                    }
                    assert(c == i as int);
                }
                let r = &records[i];
                let failed = match &r.workflow_error {
                    Some(e) => !blank(e.as_str()),
                    None => false,
                };
                if !failed {
                    return Err(between("History record ", id.as_str(), " is not a failed workflow"));
                }
                if !blank(r.raw_text.as_str()) || !blank(r.corrected_text.as_str()) || !blank(r.pasted_text.as_str()) {
                    return Err(between("History record ", id.as_str(), " already contains transcription text"));
                }
                if !r.has_audio {
                    return Err(between("The recording for history record ", id.as_str(), " is unavailable"));
                }
                return Ok(i);
            }
            i = i + 1;
        }
        proof {
            if exists|k: int| first_with_id(records@, id@, k) {
                let k = choose|k: int| first_with_id(records@, id@, k);
                assert(records@[k].id@ != id@);
            }
        }
        Err(between("History record ", id.as_str(), " was not found"))
    }


    /// The lines a replacement of record `record_id` is written over: all
    /// lines with exactly that id.  A blank id, or no such line, is refused.
    pub fn replace(record_id: &str, lines: &Vec<HistoryLine>) -> (r: Result<Vec<bool>, String>)
        ensures
            is_blank(record_id@) ==> (r matches Err(e) && e@ == "History record id cannot be empty"@),
            !is_blank(record_id@) && count_lines_of(lines@, record_id@, lines@.len() as int) == 0
                ==> (r matches Err(e) && e@ == "History record "@ + record_id@ + " was not found"@),
            !is_blank(record_id@) && count_lines_of(lines@, record_id@, lines@.len() as int) > 0
                ==> (r matches Ok(v) && v@ == lines_of(lines@, record_id@)),
    {
        if blank(record_id) {
            return Err(owned("History record id cannot be empty"));
        }
        let n = lines.len();
        let mut hits: Vec<bool> = Vec::new();
        let mut count: usize = 0;
        let mut i: usize = 0;
        while i < n
            invariant
                i <= n,
                n == lines.len(),
                hits@.len() == i,
                forall|x: int| 0 <= x < i ==> #[trigger] hits@[x] == names_record(lines@[x], record_id@),
                count == count_lines_of(lines@, record_id@, i as int),
                count <= i,
            decreases n - i,
        {
            let hit = match &lines[i].id {
                Some(x) => str_eq(x.as_str(), record_id),
                None => false,
            };
            hits.push(hit);
            count = count + if hit { 1usize } else { 0usize };
            i = i + 1;
        }
        if count == 0 {
            return Err(between("History record ", record_id, " was not found"));
        }
        assert(hits@ =~= lines_of(lines@, record_id@));
        Ok(hits)
    }

    /// Deletes every line of record `record_id` (trimmed) and the
    /// recordings no other line names.  A blank id is refused.
    pub fn delete(record_id: &str, lines: &Vec<HistoryLine>) -> (r: Result<DeletePlan, String>)
        ensures
            is_blank(record_id@) <==> r is Err,
            r matches Err(e) ==> e@ == "History record id cannot be empty"@,
            r matches Ok(plan) ==> {
                &&& plan.removed@ == lines_of(lines@, trim(record_id@))
                &&& plan.deleted_records == count_lines_of(lines@, trim(record_id@), lines@.len() as int)
                &&& plan.delete@.no_duplicates()
                &&& held(plan.delete@) == freed_recordings(lines@, plan.removed@)
            },
    {
        let id = trim_str(record_id);
        if blank(record_id) {
            return Err(owned("History record id cannot be empty"));
        }
        let n = lines.len();
        let mut removed: Vec<bool> = Vec::new();
        let mut count: usize = 0;
        let mut i: usize = 0;
        while i < n
            invariant
                i <= n,
                n == lines.len(),
                id@ == trim(record_id@),
                removed@.len() == i,
                forall|x: int| 0 <= x < i ==> #[trigger] removed@[x] == names_record(lines@[x], id@),
                count == count_lines_of(lines@, id@, i as int),
                count <= i,
            decreases n - i,
        {
            let hit = match &lines[i].id {
                Some(x) => str_eq(x.as_str(), id.as_str()),
                None => false,
            };
            removed.push(hit);
            count = count + if hit { 1usize } else { 0usize };
            i = i + 1;
        }
        assert(removed@ =~= lines_of(lines@, id@));
        let ghost r1 = removed@;
        let mut delete: Vec<u64> = Vec::new();
        let mut i: usize = 0;
        while i < n
            invariant
                i <= n,
                n == lines.len(),
                removed@ == r1,
                r1.len() == n,
                delete@.no_duplicates(),
                held(delete@) =~= Set::new(|a: u64| (exists|x: int| 0 <= x < i && r1[x] && #[trigger] lines@[x].audio == Some(a))
                    && refs(lines@, r1, a) == 0),
            decreases n - i,
        {
            if removed[i] {
                match lines[i].audio {
                    Some(a) => {
                        if count_refs(lines, &removed, a) == 0 {
                            add_unique(&mut delete, a);
                        }
                    },
                    None => {},
                }
            }
            proof {
                assert forall|a: u64| #[trigger] held(delete@).contains(a) == ((exists|x: int| 0 <= x < i + 1 && r1[x] && #[trigger] lines@[x].audio == Some(a))
                    && refs(lines@, r1, a) == 0) by {
                    if r1[i as int] && lines@[i as int].audio == Some(a) {
                        assert(exists|x: int| 0 <= x < i + 1 && r1[x] && #[trigger] lines@[x].audio == Some(a));
                    }
                }
            }
            i = i + 1;
        }
        assert(held(delete@) =~= freed_recordings(lines@, r1));
        Ok(DeletePlan { removed, deleted_records: count, delete })
    }
}

/// What the store reads of a history line before its record: the document,
/// its string `id`, and its `audio_path` when that is a non-empty string.
pub struct ParsedHistoryLine {
    pub value: Option<JsonValue>,
    pub id: Option<String>,
    pub audio_path: Option<String>,
}

/// The string held by member `key` of a document, if any.
pub open spec fn string_member(v: Option<JsonView>, key: Seq<char>) -> Option<Seq<char>> {
    match v {
        Some(d) => match get(d, key) {
            Some(JsonView::Str(s)) => Some(s),
            _ => None,
        },
        None => None,
    }
}

/// A string member that is present and not empty.
pub open spec fn non_empty(s: Option<Seq<char>>) -> Option<Seq<char>> {
    match s {
        Some(t) => if t.len() > 0 { Some(t) } else { None },
        None => None,
    }
}

/// The view of an optional string.
pub open spec fn opt_view(s: Option<String>) -> Option<Seq<char>> {
    match s {
        Some(t) => Some(t@),
        None => None,
    }
}

/// The string of member `key` of a document.
fn string_of_member(v: &JsonValue, key: &str) -> (r: Option<String>)
    ensures
        opt_view(r) == string_member(Some(jview(*v)), key@),
{
    match get_member(v, key) {
        Some(JsonValue::String(s)) => Some(copy_string(s)),
        _ => None,
    }
}

/// Reads one line of a history file: the JSON it holds (`None` when it is
/// not JSON), the record id it names, and the recording path it names.
pub fn parse_history_line(raw: &str) -> (r: ParsedHistoryLine)
    ensures
        match json_text_value(raw@) {
            Some(v) => r.value matches Some(x) && jview(x) == v,
            None => r.value is None,
        },
        opt_view(r.id) == string_member(json_text_value(raw@), "id"@),
        opt_view(r.audio_path) == non_empty(string_member(json_text_value(raw@), "audio_path"@)),
{
    match parse_json_text(raw) {
        Some(value) => {
            let id = string_of_member(&value, "id");
            let audio = string_of_member(&value, "audio_path");
            let audio_path = match audio {
                Some(p) => if p.as_str().unicode_len() > 0 { Some(p) } else { None },
                None => None,
            };
            ParsedHistoryLine { value: Some(value), id, audio_path }
        },
        None => ParsedHistoryLine { value: None, id: None, audio_path: None },
    }
}

} // verus!
