//! Where the startup lock and the single-instance socket live.

use vstd::prelude::*;
use crate::text::{append_chars, chars_of, string_from};

verus! {

broadcast use vstd::string::group_string_axioms;

/// The identifier with `.` and `-` replaced by `_`.
pub open spec fn sanitized(id: Seq<char>) -> Seq<char> {
    id.map_values(|c: char| if c == '.' || c == '-' { '_' } else { c })
}

/// The application identifier as the single-instance plugin writes it in
/// file names.
pub fn sanitized_identifier(identifier: &str) -> (r: String)
    ensures
        r@ == sanitized(identifier@),
{
    let chars = chars_of(identifier);
    let mut out: Vec<char> = Vec::new();
    let mut i: usize = 0;
    while i < chars.len()
        invariant
            i <= chars.len(),
            chars@ == identifier@,
            out@ == sanitized(chars@.take(i as int)),
        decreases chars.len() - i,
    {
        let c = chars[i];
        out.push(if c == '.' || c == '-' { '_' } else { c });
        assert(sanitized(chars@.take(i + 1)) =~= sanitized(chars@.take(i as int)).push(if c == '.' || c == '-' { '_' } else { c }));
        i = i + 1;
    }
    assert(chars@.take(chars.len() as int) =~= chars@);
    string_from(&out)
}

fn in_tmp(identifier: &str, suffix: &str) -> (r: String)
    ensures
        r@ == "/tmp/"@ + sanitized(identifier@) + suffix@,
{
    let mut v = chars_of("/tmp/");
    let s = sanitized_identifier(identifier);
    let sv = chars_of(s.as_str());
    append_chars(&mut v, &sv);
    let x = chars_of(suffix);
    append_chars(&mut v, &x);
    string_from(&v)
}

/// The lock taken by the first instance while it starts.
pub fn lock_path(identifier: &str) -> (r: String)
    ensures
        r@ == "/tmp/"@ + sanitized(identifier@) + "_startup.lock"@,
{
    in_tmp(identifier, "_startup.lock")
}

/// The socket on which the running instance listens.
pub fn socket_path(identifier: &str) -> (r: String)
    ensures
        r@ == "/tmp/"@ + sanitized(identifier@) + "_si.sock"@,
{
    in_tmp(identifier, "_si.sock")
}

} // verus!
