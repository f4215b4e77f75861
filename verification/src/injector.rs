//! Putting the dictated text where the user types.  Pasting refuses empty
//! text and, without the accessibility permission, says where to grant it.
//! This library has no backend that posts key events (the one there is
//! needs macOS), so the platform functions here are those of a platform
//! without one: the permission counts as granted, there are no settings to
//! open, and typing reports that it is not available.

use vstd::prelude::*;
use crate::text::{blank, is_blank, owned};

verus! {

broadcast use vstd::string::group_string_axioms;

/// The refusal of an empty paste.
pub open spec fn empty_paste_message() -> Seq<char> {
    "Cannot paste empty text"@
}

/// The refusal when the accessibility permission is missing.
pub open spec fn missing_permission_message() -> Seq<char> {
    "Missing Accessibility permission. Enable BoltScribe in System Settings > Privacy & Security > Accessibility, then try again."@
}

/// The refusal of typing where no backend posts key events.
pub open spec fn no_injection_message() -> Seq<char> {
    "Text injection is only implemented on macOS"@
}

/// Why a paste of `text` does not start: the text is blank, or the
/// permission to post key events is missing.  `None` when typing may begin.
pub open spec fn paste_refusal_spec(text: Seq<char>, permission_granted: bool) -> Option<Seq<char>> {
    if is_blank(text) {
        Some(empty_paste_message())
    } else if !permission_granted {
        Some(missing_permission_message())
    } else {
        None
    }
}

/// Decides whether a paste of `text` may start typing.
pub fn paste_refusal(text: &str, permission_granted: bool) -> (r: Option<String>)
    ensures
        match paste_refusal_spec(text@, permission_granted) {
            Some(m) => r matches Some(s) && s@ == m,
            None => r is None,
        },
{
    if blank(text) {
        return Some(owned("Cannot paste empty text"));
    }
    if !permission_granted {
        return Some(owned("Missing Accessibility permission. Enable BoltScribe in System Settings > Privacy & Security > Accessibility, then try again."));
    }
    None
}

/// Whether the process may post key events, prompting the user when
/// `prompt` is set.  Without a key-event backend nothing needs granting.
pub fn accessibility_trusted(prompt: bool) -> (r: bool)
    ensures
        r,
{
    true
}

/// Asks for the accessibility permission and says whether it is granted.
pub fn request_accessibility_permission() -> (r: bool)
    ensures
        r,
{
    accessibility_trusted(true)
}

/// Whether the accessibility permission is granted, without asking.
pub fn accessibility_permission_granted() -> (r: bool)
    ensures
        r,
{
    accessibility_trusted(false)
}

/// Opens the system settings of the accessibility permission; there are
/// none to open without a key-event backend.
pub fn open_accessibility_settings() -> (r: Result<(), String>)
    ensures
        r is Ok,
{
    Ok(())
}

/// Types `text` into the focused application: refused where no backend
/// posts key events.
pub fn type_text(text: &str) -> (r: Result<(), String>)
    ensures
        r matches Err(e) && e@ == no_injection_message(),
{
    Err(owned("Text injection is only implemented on macOS"))
}

/// Pastes `text`: refused when it is blank or the permission is missing,
/// else typed.
pub fn paste_text(text: &str) -> (r: Result<(), String>)
    ensures
        match paste_refusal_spec(text@, true) {
            Some(m) => r matches Err(e) && e@ == m,
            None => r matches Err(e) && e@ == no_injection_message(),
        },
{
    let granted = accessibility_permission_granted();
    match paste_refusal(text, granted) {
        Some(reason) => Err(reason),
        None => type_text(text),
    }
}

} // verus!
