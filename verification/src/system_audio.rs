//! Restarting the macOS audio service: reading what the authorization
//! prompt returned.

use vstd::prelude::*;
use crate::text::{append_chars, chars_of, contains_seq, is_blank, str_contains, string_from, trim, trim_str};

verus! {

broadcast use vstd::string::group_string_axioms;

/// Whether AppleScript reported the cancellation code -128, which stays the
/// same when the message around it is localised.
pub fn authorization_was_cancelled(stderr: &str) -> (r: bool)
    ensures
        r == contains_seq(stderr@, "(-128)"@),
{
    str_contains(stderr, "(-128)")
}

/// The outcome of the restart request: restarted, cancelled by the user
/// (`false`), or failed with the script's message or exit status.
pub fn restart_outcome(success: bool, stderr: &str, status: &str) -> (r: Result<bool, String>)
    ensures
        success ==> r == Ok::<bool, String>(true),
        !success && contains_seq(stderr@, "(-128)"@) ==> r == Ok::<bool, String>(false),
        !success && !contains_seq(stderr@, "(-128)"@) && is_blank(stderr@) ==> (r matches Err(e)
            && e@ == "macOS did not restart the system audio service (osascript exited with "@ + status@ + ")"@),
        !success && !contains_seq(stderr@, "(-128)"@) && !is_blank(stderr@) ==> (r matches Err(e)
            && e@ == "macOS did not restart the system audio service: "@ + trim(stderr@)),
{
    if success {
        return Ok(true);
    }
    if authorization_was_cancelled(stderr) {
        return Ok(false);
    }
    let detail = trim_str(stderr);
    if chars_of(detail.as_str()).len() == 0 {
        let mut v = chars_of("macOS did not restart the system audio service (osascript exited with ");
        let s = chars_of(status);
        append_chars(&mut v, &s);
        let close = chars_of(")");
        append_chars(&mut v, &close);
        return Err(string_from(&v));
    }
    let mut v = chars_of("macOS did not restart the system audio service: ");
    let d = chars_of(detail.as_str());
    append_chars(&mut v, &d);
    Err(string_from(&v))
}

} // verus!
