//! Launching at login through a user launch agent: its file, its text, and
//! when installing or removing it is refused.

use vstd::prelude::*;
use crate::paths::{path_join, path_joined, under, opt_view, res_view, home_missing};
use crate::text::{concat, contains_seq, owned, str_contains};

verus! {

broadcast use vstd::string::group_string_axioms;

/// The launch agent's label.
pub open spec fn label_text() -> Seq<char> {
    "cn.local.boltscribe"@
}

/// The launch agent's file name.
pub open spec fn plist_name() -> Seq<char> {
    "cn.local.boltscribe.plist"@
}

/// The launch agent: open the application at login.
pub open spec fn plist_text() -> Seq<char> {
    "<?xml version=\"1.0\" encoding=\"UTF-8\"?>\n<!DOCTYPE plist PUBLIC \"-//Apple//DTD PLIST 1.0//EN\" \"http://www.apple.com/DTDs/PropertyList-1.0.dtd\">\n<plist version=\"1.0\">\n<dict>\n  <key>Label</key>\n  <string>cn.local.boltscribe</string>\n  <key>ProgramArguments</key>\n  <array>\n    <string>/usr/bin/open</string>\n    <string>-a</string>\n    <string>BoltScribe</string>\n  </array>\n  <key>RunAtLoad</key>\n  <true/>\n</dict>\n</plist>\n"@
}

/// The text of the launch agent file.
pub fn launch_agent_plist() -> (r: String)
    ensures
        r@ == plist_text(),
{
    owned("<?xml version=\"1.0\" encoding=\"UTF-8\"?>\n<!DOCTYPE plist PUBLIC \"-//Apple//DTD PLIST 1.0//EN\" \"http://www.apple.com/DTDs/PropertyList-1.0.dtd\">\n<plist version=\"1.0\">\n<dict>\n  <key>Label</key>\n  <string>cn.local.boltscribe</string>\n  <key>ProgramArguments</key>\n  <array>\n    <string>/usr/bin/open</string>\n    <string>-a</string>\n    <string>BoltScribe</string>\n  </array>\n  <key>RunAtLoad</key>\n  <true/>\n</dict>\n</plist>\n")
}

/// `~/Library/LaunchAgents/cn.local.boltscribe.plist` for the given home.
pub fn launch_agent_path_in(home: Option<String>) -> (r: Result<String, String>)
    ensures
        res_view(r) == (match under(opt_view(home), seq!["Library"@, "LaunchAgents"@], home_missing()) {
            Ok(dir) => Ok(path_joined(dir, plist_name())),
            Err(e) => Err(e),
        }),
{
    proof {
        reveal_with_fuel(under, 3);
        assert(seq!["Library"@, "LaunchAgents"@].drop_last() =~= seq!["Library"@]);
        assert(seq!["Library"@].drop_last() =~= Seq::<Seq<char>>::empty());
    }
    match home {
        Some(h) => {
            let a = path_join(h.as_str(), "Library");
            let b = path_join(a.as_str(), "LaunchAgents");
            Ok(path_join(b.as_str(), "cn.local.boltscribe.plist"))
        },
        None => Err(owned("Cannot resolve user home directory")),
    }
}

/// The launch agent file in the user's home directory.
pub fn launch_agent_path() -> (r: Result<String, String>)
    ensures
        r matches Err(e) ==> e@ == home_missing(),
        r matches Ok(p) ==> exists|h: Seq<char>| p@ == path_joined(path_joined(path_joined(h, "Library"@), "LaunchAgents"@), plist_name()),
{
    let r = launch_agent_path_in(crate::paths::home_dir());
    proof {
        reveal_with_fuel(under, 3);
        assert(seq!["Library"@, "LaunchAgents"@].drop_last() =~= seq!["Library"@]);
        assert(seq!["Library"@].drop_last() =~= Seq::<Seq<char>>::empty());
    }
    r
}

/// Whether a launch agent file is the application's own: it names both
/// the label and the application.
pub fn is_managed_launch_agent(raw: &str) -> (r: bool)
    ensures
        r == (contains_seq(raw@, label_text()) && contains_seq(raw@, "BoltScribe"@)),
{
    str_contains(raw, "cn.local.boltscribe") && str_contains(raw, "BoltScribe")
}

/// Why writing (`install`) or deleting the launch agent at `path` is
/// refused: a file there that is not the application's own.
pub fn launch_agent_refusal(path: &str, present: bool, managed: bool, install: bool) -> (r: Option<String>)
    ensures
        !present || managed ==> r is None,
        present && !managed && install ==> (r matches Some(m) && m@ == "Launch agent "@ + path@ + " already exists and is not managed by BoltScribe"@),
        present && !managed && !install ==> (r matches Some(m) && m@ == "Launch agent "@ + path@ + " is not managed by BoltScribe"@),
{
    if !present || managed {
        return None;
    }
    let a = concat("Launch agent ", path);
    if install {
        Some(concat(a.as_str(), " already exists and is not managed by BoltScribe"))
    } else {
        Some(concat(a.as_str(), " is not managed by BoltScribe"))
    }
}

} // verus!
