//! Moving the data directory: what is reported, what a change does, and
//! when a move is refused.  The caller resolves the paths and inspects the
//! file system; these functions decide on what it found.

use vstd::prelude::*;
use crate::paths::{path_absolute, path_has_file_name, path_is_absolute, path_names_file};
use crate::text::{concat, owned};

verus! {

broadcast use vstd::string::group_string_axioms;

/// Where the data lives, and whether that is the default place.
#[derive(Debug, Clone, PartialEq, Eq)]
pub struct DataDirInfo {
    pub path: String,
    pub default_path: String,
    pub is_default: bool,
    pub cleanup_warning: Option<String>,
}

/// The report for the resolved data directory and default directory,
/// with a warning left by a move.
pub fn info_with_warning(path: String, default_path: String, cleanup_warning: Option<String>) -> (r: DataDirInfo)
    ensures
        r.path@ == path@,
        r.default_path@ == default_path@,
        r.is_default == (path@ == default_path@),
        r.cleanup_warning == cleanup_warning,
{
    let is_default = crate::text::str_eq(path.as_str(), default_path.as_str());
    DataDirInfo { path, default_path, is_default, cleanup_warning }
}

/// The report for the resolved data directory and default directory.
pub fn info(path: String, default_path: String) -> (r: DataDirInfo)
    ensures
        r.path@ == path@,
        r.default_path@ == default_path@,
        r.is_default == (path@ == default_path@),
        r.cleanup_warning is None,
{
    info_with_warning(path, default_path, None)
}

/// What changing the data directory does: move the contents (unless the
/// target is the current directory), then either forget the custom
/// directory (the target is the default) or record the target.
#[derive(Debug, Clone, Copy, PartialEq, Eq, Structural)]
pub struct DataDirPlan {
    pub migrate: bool,
    pub clear_custom_pointer: bool,
}

/// The plan for moving from `current` to `target`, all resolved paths.
pub fn set_data_dir(current: &str, target: &str, default: &str) -> (r: DataDirPlan)
    ensures
        r.migrate == (current@ != target@),
        r.clear_custom_pointer == (target@ == default@),
{
    DataDirPlan {
        migrate: !crate::text::str_eq(current, target),
        clear_custom_pointer: crate::text::str_eq(target, default),
    }
}

/// The plan for going back to the default directory.
pub fn reset_data_dir(current: &str, default: &str) -> (r: DataDirPlan)
    ensures
        r.migrate == (current@ != default@),
        r.clear_custom_pointer,
{
    set_data_dir(current, default, default)
}

/// What the file system shows of a directory.
#[derive(Debug, Clone, Copy, PartialEq, Eq, Structural)]
pub struct DirFacts {
    pub exists: bool,
    pub is_dir: bool,
    /// Whether it has no entries (meaningful for an existing directory).
    pub empty: bool,
}

/// Why a move from `source` to `target` is refused, if it is: the
/// current directory is a file, the target lies inside it or contains it,
/// or the target is a file or not empty.
pub open spec fn refusal(
    source: Seq<char>,
    src: DirFacts,
    target: Seq<char>,
    dst: DirFacts,
    target_in_source: bool,
    source_in_target: bool,
) -> Option<Seq<char>> {
    if src.exists && !src.is_dir {
        Some("Current data directory is not a directory: "@ + source)
    } else if src.exists && target_in_source {
        Some("New data directory cannot be inside the current data directory"@)
    } else if dst.exists && source_in_target {
        Some("New data directory cannot be a parent of the current data directory"@)
    } else if dst.exists && !dst.is_dir {
        Some("Selected data directory is not a directory: "@ + target)
    } else if dst.exists && !dst.empty {
        Some("Selected data directory must be empty"@)
    } else {
        None
    }
}

/// The reason a move is refused, or `None` when it may go ahead.
pub fn migration_refusal(
    source: &str,
    src: DirFacts,
    target: &str,
    dst: DirFacts,
    target_in_source: bool,
    source_in_target: bool,
) -> (r: Option<String>)
    ensures
        match refusal(source@, src, target@, dst, target_in_source, source_in_target) {
            Some(m) => r matches Some(s) && s@ == m,
            None => r is None,
        },
{
    if src.exists && !src.is_dir {
        Some(concat("Current data directory is not a directory: ", source))
    } else if src.exists && target_in_source {
        Some(owned("New data directory cannot be inside the current data directory"))
    } else if dst.exists && source_in_target {
        Some(owned("New data directory cannot be a parent of the current data directory"))
    } else if dst.exists && !dst.is_dir {
        Some(concat("Selected data directory is not a directory: ", target))
    } else if dst.exists && !dst.empty {
        Some(owned("Selected data directory must be empty"))
    } else {
        None
    }
}

/// The warning kept when the old directory could not be emptied.
pub fn cleanup_warning(current: &str, err: &str) -> (r: String)
    ensures
        r@ == "Data directory was changed, but cleanup of "@ + current@ + " failed: "@ + err@,
{
    let a = concat("Data directory was changed, but cleanup of ", current);
    let b = concat(a.as_str(), " failed: ");
    concat(b.as_str(), err)
}

/// Refuses a chosen data directory that is not an absolute path.
pub fn absolute_path_refusal(path: &str) -> (r: Option<String>)
    ensures
        r is None <==> path_absolute(path@),
        r matches Some(e) ==> e@ == "Data directory must be an absolute path"@,
{
    if path_is_absolute(path) {
        None
    } else {
        Some(owned("Data directory must be an absolute path"))
    }
}

/// Refuses a (resolved) new data directory that names no final component,
/// such as a filesystem root.
pub fn root_target_refusal(path: &str) -> (r: Option<String>)
    ensures
        r is None <==> path_names_file(path@),
        r matches Some(e) ==> e@ == "Data directory cannot be a filesystem root"@,
{
    if path_has_file_name(path) {
        None
    } else {
        Some(owned("Data directory cannot be a filesystem root"))
    }
}

/// Refuses to store a custom data directory that is not an absolute path.
pub fn custom_dir_refusal(path: &str) -> (r: Option<String>)
    ensures
        r is None <==> path_absolute(path@),
        r matches Some(e) ==> e@ == "Custom data directory must be an absolute path"@,
{
    if path_is_absolute(path) {
        None
    } else {
        Some(owned("Custom data directory must be an absolute path"))
    }
}

/// Refuses to empty a directory that names no final component, such as a
/// filesystem root.
pub fn clean_root_refusal(path: &str) -> (r: Option<String>)
    ensures
        r is None <==> path_names_file(path@),
        r matches Some(e) ==> e@ == "Refusing to clean filesystem root: "@ + path@,
{
    if path_has_file_name(path) {
        None
    } else {
        Some(concat("Refusing to clean filesystem root: ", path))
    }
}

} // verus!
