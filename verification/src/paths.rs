//! Where configuration, history and recordings are stored.

use vstd::prelude::*;
use crate::text::{append_chars, chars_of, owned, string_from, trim, trim_str};

verus! {

broadcast use vstd::string::group_string_axioms;

/// `dirs::home_dir`: the user's home directory as text, if the platform
/// names one.  It depends on the environment; nothing is stated of it.
#[verifier::external_body]
pub(crate) fn home_dir() -> (r: Option<String>) {
    dirs::home_dir().map(|p| p.to_string_lossy().into_owned())
}

/// `dirs::data_dir`: the user's data directory as text, if the platform
/// names one.  It depends on the environment; nothing is stated of it.
#[verifier::external_body]
fn data_dir() -> (r: Option<String>) {
    dirs::data_dir().map(|p| p.to_string_lossy().into_owned())
}

/// What `std::path::Path::join` gives for `base` and `tail`, as text.
pub uninterp spec fn path_joined(base: Seq<char>, tail: Seq<char>) -> Seq<char>;

/// Calls `Path::join` and gives the joined path as text (`display`).
#[verifier::external_body]
pub(crate) fn path_join(base: &str, tail: &str) -> (r: String)
    ensures
        r@ == path_joined(base@, tail@),
{
    std::path::Path::new(base).join(tail).display().to_string()
}

/// What `std::path::Path::is_absolute` says of `path`.
pub uninterp spec fn path_absolute(path: Seq<char>) -> bool;

/// Calls `Path::is_absolute`: whether the path is independent of the
/// current directory (on Unix, whether it starts at the root).
#[verifier::external_body]
pub(crate) fn path_is_absolute(path: &str) -> (r: bool)
    ensures
        r == path_absolute(path@),
{
    std::path::Path::new(path).is_absolute()
}

/// What `std::path::Path::file_name` says of `path`: whether it names a
/// final component (it does not for a root, or a path ending in `..`).
pub uninterp spec fn path_names_file(path: Seq<char>) -> bool;

/// Calls `Path::file_name` and says whether it is `Some`.
#[verifier::external_body]
pub(crate) fn path_has_file_name(path: &str) -> (r: bool)
    ensures
        r == path_names_file(path@),
{
    match std::path::Path::new(path).file_name() {
        Some(_) => true,
        None => false,
    }
}

pub open spec fn home_missing() -> Seq<char> {
    "Cannot resolve user home directory"@
}

pub open spec fn data_missing() -> Seq<char> {
    "Cannot resolve user Application Support directory"@
}

/// A path under the given base directory, or the error when there is none.
pub open spec fn under(base: Option<Seq<char>>, names: Seq<Seq<char>>, missing: Seq<char>) -> Result<Seq<char>, Seq<char>>
    decreases names.len(),
{
    match base {
        None => Err(missing),
        Some(b) => if names.len() == 0 {
            Ok(b)
        } else {
            match under(Some(b), names.drop_last(), missing) {
                Ok(p) => Ok(path_joined(p, names.last())),
                Err(e) => Err(e),
            }
        },
    }
}

pub open spec fn opt_view(v: Option<String>) -> Option<Seq<char>> {
    match v {
        Some(s) => Some(s@),
        None => None,
    }
}

pub open spec fn res_view(v: Result<String, String>) -> Result<Seq<char>, Seq<char>> {
    match v {
        Ok(s) => Ok(s@),
        Err(e) => Err(e@),
    }
}

fn under_one(base: Option<String>, name: &str, missing: &str) -> (r: Result<String, String>)
    ensures
        res_view(r) == under(opt_view(base), seq![name@], missing@),
{
    proof {
        reveal_with_fuel(under, 2);
        assert(seq![name@].drop_last() =~= Seq::<Seq<char>>::empty());
    }
    match base {
        Some(b) => Ok(path_join(b.as_str(), name)),
        None => Err(owned(missing)),
    }
}

fn under_two(base: Option<String>, first: &str, second: &str, missing: &str) -> (r: Result<String, String>)
    ensures
        res_view(r) == under(opt_view(base), seq![first@, second@], missing@),
{
    proof {
        reveal_with_fuel(under, 3);
        assert(seq![first@, second@].drop_last() =~= seq![first@]);
        assert(seq![first@].drop_last() =~= Seq::<Seq<char>>::empty());
    }
    match base {
        Some(b) => {
            let d = path_join(b.as_str(), first);
            Ok(path_join(d.as_str(), second))
        },
        None => Err(owned(missing)),
    }
}

/// The hidden configuration directory in the home directory.
pub fn config_dir_in(home: Option<String>) -> (r: Result<String, String>)
    ensures
        res_view(r) == under(opt_view(home), seq![".boltscribe"@], home_missing()),
{
    under_one(home, ".boltscribe", "Cannot resolve user home directory")
}

/// `~/.boltscribe`.
pub fn config_dir() -> (r: Result<String, String>)
    ensures
        r matches Err(e) ==> e@ == home_missing(),
        r matches Ok(p) ==> exists|h: Seq<char>| p@ == path_joined(h, ".boltscribe"@),
{
    let r = config_dir_in(home_dir());
    proof {
        reveal_with_fuel(under, 2);
    }
    r
}

/// The configuration file in the home directory.
pub fn config_path_in(home: Option<String>) -> (r: Result<String, String>)
    ensures
        res_view(r) == under(opt_view(home), seq![".boltscribe"@, "config.json"@], home_missing()),
{
    under_two(home, ".boltscribe", "config.json", "Cannot resolve user home directory")
}

/// `~/.boltscribe/config.json`.
pub fn config_path() -> (r: Result<String, String>)
    ensures
        r matches Err(e) ==> e@ == home_missing(),
        r matches Ok(p) ==> exists|h: Seq<char>| p@ == path_joined(path_joined(h, ".boltscribe"@), "config.json"@),
{
    let r = config_path_in(home_dir());
    proof {
        reveal_with_fuel(under, 3);
        assert(seq![".boltscribe"@, "config.json"@].drop_last() =~= seq![".boltscribe"@]);
        assert(seq![".boltscribe"@].drop_last() =~= Seq::<Seq<char>>::empty());
    }
    r
}

/// The file naming a custom data directory.
pub fn data_dir_pointer_path_in(home: Option<String>) -> (r: Result<String, String>)
    ensures
        res_view(r) == under(opt_view(home), seq![".boltscribe"@, "data_dir.txt"@], home_missing()),
{
    under_two(home, ".boltscribe", "data_dir.txt", "Cannot resolve user home directory")
}

/// The configuration file of the earlier hidden location.
pub fn legacy_hidden_config_path_in(home: Option<String>) -> (r: Result<String, String>)
    ensures
        res_view(r) == under(opt_view(home), seq![".lightning-speaking"@, "config.json"@], home_missing()),
{
    under_two(home, ".lightning-speaking", "config.json", "Cannot resolve user home directory")
}

/// The default data directory in the platform's data directory.
pub fn default_app_dir_in(data: Option<String>) -> (r: Result<String, String>)
    ensures
        res_view(r) == under(opt_view(data), seq!["BoltScribe"@], data_missing()),
{
    under_one(data, "BoltScribe", "Cannot resolve user Application Support directory")
}

/// The default data directory.
pub fn default_app_dir() -> (r: Result<String, String>)
    ensures
        r matches Err(e) ==> e@ == data_missing(),
        r matches Ok(p) ==> exists|d: Seq<char>| p@ == path_joined(d, "BoltScribe"@),
{
    let r = default_app_dir_in(data_dir());
    proof {
        reveal_with_fuel(under, 2);
    }
    r
}

/// The earlier configuration file in the platform's data directory.
pub fn legacy_config_path_in(data: Option<String>) -> (r: Result<String, String>)
    ensures
        res_view(r) == under(opt_view(data), seq!["LightningSpeaking"@, "config.json"@], data_missing()),
{
    under_two(data, "LightningSpeaking", "config.json", "Cannot resolve user Application Support directory")
}

/// The earlier history file in the platform's data directory.
pub fn legacy_history_path_in(data: Option<String>) -> (r: Result<String, String>)
    ensures
        res_view(r) == under(opt_view(data), seq!["LightningSpeaking"@, "history.jsonl"@], data_missing()),
{
    under_two(data, "LightningSpeaking", "history.jsonl", "Cannot resolve user Application Support directory")
}

/// `LightningSpeaking/config.json` in the data directory.
pub fn legacy_config_path() -> (r: Result<String, String>)
    ensures
        r matches Err(e) ==> e@ == data_missing(),
        r matches Ok(p) ==> exists|d: Seq<char>| p@ == path_joined(path_joined(d, "LightningSpeaking"@), "config.json"@),
{
    let r = legacy_config_path_in(data_dir());
    proof {
        reveal_with_fuel(under, 3);
        assert(seq!["LightningSpeaking"@, "config.json"@].drop_last() =~= seq!["LightningSpeaking"@]);
        assert(seq!["LightningSpeaking"@].drop_last() =~= Seq::<Seq<char>>::empty());
    }
    r
}

/// `LightningSpeaking/history.jsonl` in the data directory.
pub fn legacy_history_path() -> (r: Result<String, String>)
    ensures
        r matches Err(e) ==> e@ == data_missing(),
        r matches Ok(p) ==> exists|d: Seq<char>| p@ == path_joined(path_joined(d, "LightningSpeaking"@), "history.jsonl"@),
{
    let r = legacy_history_path_in(data_dir());
    proof {
        reveal_with_fuel(under, 3);
        assert(seq!["LightningSpeaking"@, "history.jsonl"@].drop_last() =~= seq!["LightningSpeaking"@]);
        assert(seq!["LightningSpeaking"@].drop_last() =~= Seq::<Seq<char>>::empty());
    }
    r
}

/// `~/.lightning-speaking/config.json`.
pub fn legacy_hidden_config_path() -> (r: Result<String, String>)
    ensures
        r matches Err(e) ==> e@ == home_missing(),
        r matches Ok(p) ==> exists|h: Seq<char>| p@ == path_joined(path_joined(h, ".lightning-speaking"@), "config.json"@),
{
    let r = legacy_hidden_config_path_in(home_dir());
    proof {
        reveal_with_fuel(under, 3);
        assert(seq![".lightning-speaking"@, "config.json"@].drop_last() =~= seq![".lightning-speaking"@]);
        assert(seq![".lightning-speaking"@].drop_last() =~= Seq::<Seq<char>>::empty());
    }
    r
}

/// The custom data directory that the pointer file's text names: none
/// when it holds only blanks; refused unless it is an absolute path.
pub open spec fn custom_dir(pointer_path: Seq<char>, raw: Seq<char>) -> Result<Option<Seq<char>>, Seq<char>> {
    let t = trim(raw);
    if t.len() == 0 {
        Ok(None)
    } else if path_absolute(t) {
        Ok(Some(t))
    } else {
        Err("Custom data directory in "@ + pointer_path + " must be absolute"@)
    }
}

pub open spec fn custom_view(r: Result<Option<String>, String>) -> Result<Option<Seq<char>>, Seq<char>> {
    match r {
        Ok(Some(p)) => Ok(Some(p@)),
        Ok(None) => Ok(None),
        Err(e) => Err(e@),
    }
}

/// A custom data directory read from the pointer file.
pub fn custom_app_dir_from(pointer_path: &str, raw: &str) -> (r: Result<Option<String>, String>)
    ensures
        custom_view(r) == custom_dir(pointer_path@, raw@),
{
    let t = trim_str(raw);
    let tv = chars_of(t.as_str());
    if tv.len() == 0 {
        return Ok(None);
    }
    if !path_is_absolute(t.as_str()) {
        let mut v = chars_of("Custom data directory in ");
        let p = chars_of(pointer_path);
        append_chars(&mut v, &p);
        let tail = chars_of(" must be absolute");
        append_chars(&mut v, &tail);
        return Err(string_from(&v));
    }
    Ok(Some(t))
}

/// The data directory: the custom one that the pointer file names (its
/// text, when the file exists), else the default one.
pub open spec fn app_dir_spec(home: Option<Seq<char>>, data: Option<Seq<char>>, pointer: Option<Seq<char>>) -> Result<Seq<char>, Seq<char>> {
    match under(home, seq![".boltscribe"@, "data_dir.txt"@], home_missing()) {
        Err(e) => Err(e),
        Ok(pp) => {
            let custom = match pointer {
                None => Ok(None),
                Some(raw) => custom_dir(pp, raw),
            };
            match custom {
                Err(e) => Err(e),
                Ok(Some(p)) => Ok(p),
                Ok(None) => under(data, seq!["BoltScribe"@], data_missing()),
            }
        },
    }
}

/// The data directory, given the home and data directories and the
/// pointer file's text.
pub fn app_dir_in(home: Option<String>, data: Option<String>, pointer: Option<String>) -> (r: Result<String, String>)
    ensures
        res_view(r) == app_dir_spec(opt_view(home), opt_view(data), opt_view(pointer)),
{
    let pp = match data_dir_pointer_path_in(home) {
        Err(e) => return Err(e),
        Ok(p) => p,
    };
    let custom = match pointer {
        None => Ok(None),
        Some(raw) => custom_app_dir_from(pp.as_str(), raw.as_str()),
    };
    match custom {
        Err(e) => Err(e),
        Ok(Some(p)) => Ok(p),
        Ok(None) => default_app_dir_in(data),
    }
}

/// The data directory, given the pointer file's text (`None` when the
/// file does not exist).
pub fn app_dir(pointer: Option<String>) -> (r: Result<String, String>)
    ensures
        exists|h: Option<Seq<char>>, d: Option<Seq<char>>| res_view(r) == #[trigger] app_dir_spec(h, d, opt_view(pointer)),
{
    let home = home_dir();
    let data = data_dir();
    let r = app_dir_in(home, data, pointer);
    assert(res_view(r) == app_dir_spec(opt_view(home), opt_view(data), opt_view(pointer)));
    r
}

/// `~/.boltscribe/data_dir.txt`.
pub fn data_dir_pointer_path() -> (r: Result<String, String>)
    ensures
        r matches Err(e) ==> e@ == home_missing(),
        r matches Ok(p) ==> exists|h: Seq<char>| p@ == path_joined(path_joined(h, ".boltscribe"@), "data_dir.txt"@),
{
    let r = data_dir_pointer_path_in(home_dir());
    proof {
        reveal_with_fuel(under, 3);
        assert(seq![".boltscribe"@, "data_dir.txt"@].drop_last() =~= seq![".boltscribe"@]);
        assert(seq![".boltscribe"@].drop_last() =~= Seq::<Seq<char>>::empty());
    }
    r
}

/// A name inside the data directory.
pub open spec fn in_app_dir(dir: Result<Seq<char>, Seq<char>>, name: Seq<char>) -> Result<Seq<char>, Seq<char>> {
    match dir {
        Ok(d) => Ok(path_joined(d, name)),
        Err(e) => Err(e),
    }
}

fn in_dir(dir: Result<String, String>, name: &str) -> (r: Result<String, String>)
    ensures
        res_view(r) == in_app_dir(res_view(dir), name@),
{
    match dir {
        Ok(d) => Ok(path_join(d.as_str(), name)),
        Err(e) => Err(e),
    }
}

/// `history.jsonl` in the data directory.
pub fn history_path(pointer: Option<String>) -> (r: Result<String, String>)
    ensures
        exists|h: Option<Seq<char>>, d: Option<Seq<char>>| res_view(r) == in_app_dir(#[trigger] app_dir_spec(h, d, opt_view(pointer)), "history.jsonl"@),
{
    in_dir(app_dir(pointer), "history.jsonl")
}

/// `input_stats.jsonl` in the data directory.
pub fn input_stats_path(pointer: Option<String>) -> (r: Result<String, String>)
    ensures
        exists|h: Option<Seq<char>>, d: Option<Seq<char>>| res_view(r) == in_app_dir(#[trigger] app_dir_spec(h, d, opt_view(pointer)), "input_stats.jsonl"@),
{
    in_dir(app_dir(pointer), "input_stats.jsonl")
}

/// The `recordings` directory in the data directory.
pub fn recordings_dir(pointer: Option<String>) -> (r: Result<String, String>)
    ensures
        exists|h: Option<Seq<char>>, d: Option<Seq<char>>| res_view(r) == in_app_dir(#[trigger] app_dir_spec(h, d, opt_view(pointer)), "recordings"@),
{
    in_dir(app_dir(pointer), "recordings")
}

} // verus!
