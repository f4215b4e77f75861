//! Texts the device refresh commands report.

use vstd::prelude::*;
use crate::text::{concat, decimal, push_decimal, string_from};

verus! {

broadcast use vstd::string::group_string_axioms;

/// A duration of `ms` milliseconds as `Ns` when it is whole seconds,
/// else as `Nms`.
pub open spec fn duration_text(ms: u64) -> Seq<char> {
    if ms % 1000 == 0 { decimal((ms / 1000) as nat) + "s"@ } else { decimal(ms as nat) + "ms"@ }
}

/// Formats a duration given in milliseconds.
pub fn format_duration(ms: u64) -> (r: String)
    ensures
        r@ == duration_text(ms),
{
    let mut v: Vec<char> = Vec::new();
    if ms % 1000 == 0 {
        push_decimal(&mut v, ms / 1000);
        v.push('s');
        proof {
            reveal_strlit("s");
            assert(v@ =~= decimal((ms / 1000) as nat) + "s"@);
        }
    } else {
        push_decimal(&mut v, ms);
        v.push('m');
        v.push('s');
        proof {
            reveal_strlit("ms");
            assert(v@ =~= decimal(ms as nat) + "ms"@);
        }
    }
    string_from(&v)
}

/// The refusal while another refresh of the same kind is waiting.
pub fn refresh_busy_message(label: &str) -> (r: String)
    ensures
        r@ == label@ + " is already waiting for the system audio service; try again after it finishes or restart the audio service."@,
{
    concat(label, " is already waiting for the system audio service; try again after it finishes or restart the audio service.")
}

/// The error when a refresh did not answer in time.
pub fn refresh_timeout_message(label: &str, timeout_ms: u64) -> (r: String)
    ensures
        r@ == label@ + " timed out after "@ + duration_text(timeout_ms)
            + ". The system audio service may be unresponsive; try again later or restart the audio service."@,
{
    let a = concat(label, " timed out after ");
    let d = format_duration(timeout_ms);
    let b = concat(a.as_str(), d.as_str());
    concat(b.as_str(), ". The system audio service may be unresponsive; try again later or restart the audio service.")
}

/// The error when the refresh worker ended without an answer.
pub fn refresh_worker_exited_message(label: &str) -> (r: String)
    ensures
        r@ == label@ + " worker exited before returning"@,
{
    concat(label, " worker exited before returning")
}

} // verus!
