//! What moving the data directory does to the history, and how the moved
//! copy is checked before the old data goes: audio paths under the old
//! recordings directory are rewritten to the new one, and the copy must hold
//! the same directories and files, of the same sizes, naming no recording
//! under the old directory.

use vstd::prelude::*;
use crate::history_store::upsert;
use crate::json::{find_member, get, jview, lemma_mviews_len, mviews, JsonValue, JsonView};
use crate::paths::{path_join, path_joined};
use crate::text::{concat, copy_string, list_contains, owned, str_eq, strs};

verus! {

broadcast use vstd::string::group_string_axioms;

/// What `std::path::Path::strip_prefix` gives for `path` and `base`, as text.
pub uninterp spec fn path_stripped(path: Seq<char>, base: Seq<char>) -> Option<Seq<char>>;

/// Calls `Path::strip_prefix`: the rest of `path` after the whole components
/// of `base`, and `None` when `base` is not a component prefix of `path`.
/// `Path::starts_with` holds exactly when this is `Some`: both walk the same
/// components.  The rest is text because `path` is.
#[verifier::external_body]
fn path_strip_prefix(path: &str, base: &str) -> (r: Option<String>)
    ensures
        match path_stripped(path@, base@) {
            Some(t) => r matches Some(s) && s@ == t,
            None => r is None,
        },
{
    match std::path::Path::new(path).strip_prefix(base) {
        Ok(rest) => Some(rest.to_string_lossy().into_owned()),
        Err(_) => None,
    }
}

/// The audio path a history record names as text.
pub open spec fn audio_path_of(v: JsonView) -> Option<Seq<char>> {
    match get(v, "audio_path"@) {
        Some(JsonView::Str(p)) => Some(p),
        _ => None,
    }
}

/// A history record after the data moved: an audio path under the old
/// recordings directory now lies at the same place under the new one.
/// `None` when the record stays as it was.
pub open spec fn moved_record(v: JsonView, old_dir: Seq<char>, new_dir: Seq<char>) -> Option<JsonView> {
    match v {
        JsonView::Object(m) => match audio_path_of(v) {
            Some(p) => match path_stripped(p, old_dir) {
                Some(rest) => Some(JsonView::Object(upsert(m, "audio_path"@, JsonView::Str(path_joined(new_dir, rest))))),
                None => None,
            },
            None => None,
        },
        _ => None,
    }
}

/// Rewrites the audio path of a history record for the new data directory;
/// `None` when the record keeps its text.
pub fn rewrite_history_value(value: JsonValue, old_recordings_dir: &str, new_recordings_dir: &str) -> (r: Option<JsonValue>)
    ensures
        match moved_record(jview(value), old_recordings_dir@, new_recordings_dir@) {
            Some(v) => r matches Some(x) && jview(x) == v,
            None => r is None,
        },
{
    let mut members = match value {
        JsonValue::Object(m) => m,
        _ => return None,
    };
    proof {
        lemma_mviews_len(members@);
    }
    let i = match find_member(&members, "audio_path") {
        Some(i) => i,
        None => return None,
    };
    let rest = match &members[i].1 {
        JsonValue::String(p) => match path_strip_prefix(p.as_str(), old_recordings_dir) {
            Some(rest) => rest,
            None => return None,
        },
        _ => return None,
    };
    let moved = path_join(new_recordings_dir, rest.as_str());
    let ghost before = members@;
    members.set(i, (owned("audio_path"), JsonValue::String(moved)));
    proof {
        lemma_mviews_len(members@);
        assert(mviews(members@) =~= mviews(before).update(i as int, ("audio_path"@, JsonView::Str(moved@))));
    }
    Some(JsonValue::Object(members))
}

/// The complaint about a moved history record: one that still names a
/// recording under the old directory, or one under this copy's recordings
/// directory but not under the new one.
pub open spec fn audio_path_problem(v: JsonView, old_dir: Seq<char>, new_dir: Seq<char>, here_dir: Seq<char>) -> Option<Seq<char>> {
    match audio_path_of(v) {
        Some(p) => if path_stripped(p, old_dir) is Some {
            Some("Data directory migration verification failed: history still references "@ + old_dir)
        } else if path_stripped(p, here_dir) is Some && path_stripped(p, new_dir) is None {
            Some("Data directory migration verification failed: history recording path is inconsistent"@)
        } else {
            None
        },
        None => None,
    }
}

/// Checks one record of a moved history.
pub fn check_history_audio_path(value: &JsonValue, old_recordings_dir: &str, new_recordings_dir: &str, recordings_dir: &str) -> (r: Option<String>)
    ensures
        match audio_path_problem(jview(*value), old_recordings_dir@, new_recordings_dir@, recordings_dir@) {
            Some(e) => r matches Some(x) && x@ == e,
            None => r is None,
        },
{
    let members = match value {
        JsonValue::Object(m) => m,
        _ => return None,
    };
    proof {
        lemma_mviews_len(members@);
    }
    let i = match find_member(members, "audio_path") {
        Some(i) => i,
        None => return None,
    };
    let p = match &members[i].1 {
        JsonValue::String(p) => p,
        _ => return None,
    };
    if path_strip_prefix(p.as_str(), old_recordings_dir).is_some() {
        return Some(concat("Data directory migration verification failed: history still references ", old_recordings_dir));
    }
    if path_strip_prefix(p.as_str(), recordings_dir).is_some() && path_strip_prefix(p.as_str(), new_recordings_dir).is_none() {
        return Some(owned("Data directory migration verification failed: history recording path is inconsistent"));
    }
    None
}

/// Two lists name the same things.
pub open spec fn same_members(a: Seq<Seq<char>>, b: Seq<Seq<char>>) -> bool {
    &&& forall|i: int| 0 <= i < a.len() ==> b.contains(#[trigger] a[i])
    &&& forall|j: int| 0 <= j < b.len() ==> a.contains(#[trigger] b[j])
}

/// Whether every string of `a` is in `b`.
fn all_listed(a: &Vec<String>, b: &Vec<String>) -> (r: bool)
    ensures
        r == forall|i: int| 0 <= i < a@.len() ==> strs(b@).contains(#[trigger] strs(a@)[i]),
{
    let mut i: usize = 0;
    while i < a.len()
        invariant
            i <= a.len(),
            forall|k: int| 0 <= k < i ==> strs(b@).contains(#[trigger] strs(a@)[k]),
        decreases a.len() - i,
    {
        if !list_contains(b, a[i].as_str()) {
            assert(strs(a@)[i as int] == a@[i as int]@);
            return false;
        }
        assert(strs(a@)[i as int] == a@[i as int]@);
        i = i + 1;
    }
    true
}

/// Whether two lists name the same things.
fn same_lists(a: &Vec<String>, b: &Vec<String>) -> (r: bool)
    ensures
        r == same_members(strs(a@), strs(b@)),
{
    all_listed(a, b) && all_listed(b, a)
}

/// The names of a list of files with their sizes.
pub open spec fn file_names(files: Seq<(String, u64)>) -> Seq<Seq<char>> {
    Seq::new(files.len(), |i: int| files[i].0@)
}

/// The size of the first file named `name` from position `i` on.
pub open spec fn size_from(files: Seq<(String, u64)>, name: Seq<char>, i: int) -> Option<u64>
    decreases files.len() - i,
{
    if 0 <= i < files.len() {
        if files[i].0@ == name { Some(files[i].1) } else { size_from(files, name, i + 1) }
    } else {
        None
    }
}

/// The first file from position `i` on, other than the history, whose copy
/// is missing or has another size.
pub open spec fn first_size_change(source: Seq<(String, u64)>, target: Seq<(String, u64)>, i: int) -> Option<Seq<char>>
    decreases source.len() - i,
{
    if 0 <= i < source.len() {
        if source[i].0@ != "history.jsonl"@ && size_from(target, source[i].0@, 0) != Some(source[i].1) {
            Some(source[i].0@)
        } else {
            first_size_change(source, target, i + 1)
        }
    } else {
        None
    }
}

/// What is wrong with a copy of the data directory, given the directories
/// and the files (with sizes) found in the source and in the copy: the
/// directories differ, the files differ, or a file other than the history
/// changed size.
pub open spec fn copy_problem(
    source_dirs: Seq<Seq<char>>,
    target_dirs: Seq<Seq<char>>,
    source_files: Seq<(String, u64)>,
    target_files: Seq<(String, u64)>,
) -> Option<Seq<char>> {
    if !same_members(source_dirs, target_dirs) {
        Some("Data directory migration verification failed: directory list changed"@)
    } else if !same_members(file_names(source_files), file_names(target_files)) {
        Some("Data directory migration verification failed: file list changed"@)
    } else {
        match first_size_change(source_files, target_files, 0) {
            Some(p) => Some("Data directory migration verification failed: file size changed for "@ + p),
            None => None,
        }
    }
}

fn names_of(files: &Vec<(String, u64)>) -> (r: Vec<String>)
    ensures
        strs(r@) == file_names(files@),
{
    let mut r: Vec<String> = Vec::new();
    let mut i: usize = 0;
    while i < files.len()
        invariant
            i <= files.len(),
            r@.len() == i,
            strs(r@) =~= file_names(files@).take(i as int),
        decreases files.len() - i,
    {
        let ghost before = r@;
        r.push(copy_string(&files[i].0));
        proof {
            assert(r@ == before.push(r@[i as int]));
            assert(file_names(files@).take(i + 1) =~= file_names(files@).take(i as int).push(files@[i as int].0@));
            assert(strs(r@) =~= strs(before).push(r@[i as int]@));
        }
        i = i + 1;
    }
    assert(file_names(files@).take(files.len() as int) =~= file_names(files@));
    r
}

fn size_in(files: &Vec<(String, u64)>, name: &str) -> (r: Option<u64>)
    ensures
        r == size_from(files@, name@, 0),
{
    let mut i: usize = 0;
    while i < files.len()
        invariant
            i <= files.len(),
            size_from(files@, name@, 0) == size_from(files@, name@, i as int),
        decreases files.len() - i,
    {
        if str_eq(files[i].0.as_str(), name) {
            return Some(files[i].1);
        }
        i = i + 1;
    }
    None
}

/// Checks a copy of the data directory against its source.
pub fn check_copy(
    source_dirs: &Vec<String>,
    target_dirs: &Vec<String>,
    source_files: &Vec<(String, u64)>,
    target_files: &Vec<(String, u64)>,
) -> (r: Option<String>)
    ensures
        match copy_problem(strs(source_dirs@), strs(target_dirs@), source_files@, target_files@) {
            Some(e) => r matches Some(x) && x@ == e,
            None => r is None,
        },
{
    if !same_lists(source_dirs, target_dirs) {
        return Some(owned("Data directory migration verification failed: directory list changed"));
    }
    let source_names = names_of(source_files);
    let target_names = names_of(target_files);
    if !same_lists(&source_names, &target_names) {
        return Some(owned("Data directory migration verification failed: file list changed"));
    }
    let mut i: usize = 0;
    while i < source_files.len()
        invariant
            i <= source_files.len(),
            first_size_change(source_files@, target_files@, 0) == first_size_change(source_files@, target_files@, i as int),
            same_members(strs(source_dirs@), strs(target_dirs@)),
            same_members(file_names(source_files@), file_names(target_files@)),
        decreases source_files.len() - i,
    {
        let name = &source_files[i].0;
        if !str_eq(name.as_str(), "history.jsonl") {
            let size = size_in(target_files, name.as_str());
            if size != Some(source_files[i].1) {
                return Some(concat("Data directory migration verification failed: file size changed for ", name.as_str()));
            }
        }
        i = i + 1;
    }
    None
}

} // verus!
