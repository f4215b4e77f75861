//! The names the application gives its recordings: `<timestamp>_<uuid>.wav`.
//! Only files named so are ever removed as orphans.

use vstd::prelude::*;
use crate::keyboard_shortcut::{all_digits, decimal_value};
use crate::text::{chars_of, find_chars, find_first, lemma_find_first_bounds};

verus! {

/// What `i64::from_str` accepts: an optional sign, then at least one decimal
/// digit and nothing else, with a value that fits in an `i64`.
pub open spec fn parses_as_i64(s: Seq<char>) -> bool {
    let signed = s.len() > 0 && (s[0] == '+' || s[0] == '-');
    let d = if signed { s.drop_first() } else { s };
    let limit: nat = if signed && s[0] == '-' { 0x8000_0000_0000_0000 } else { 0x7fff_ffff_ffff_ffff };
    d.len() > 0 && all_digits(d) && decimal_value(d) <= limit
}

/// Whether the characters `s` are the text of an `i64`.
pub fn is_i64_text(s: &Vec<char>) -> (r: bool)
    ensures
        r == parses_as_i64(s@),
{
    let signed = s.len() > 0 && (s[0] == '+' || s[0] == '-');
    let start: usize = if signed { 1 } else { 0 };
    let limit: u128 = if signed && s[0] == '-' { 0x8000_0000_0000_0000 } else { 0x7fff_ffff_ffff_ffff };
    let cap: u128 = 0x8000_0000_0000_0001;
    let ghost d = if signed { s@.drop_first() } else { s@ };
    if start >= s.len() {
        assert(d.len() == 0);
        return false;
    }
    assert(d =~= s@.skip(start as int));
    let mut value: u128 = 0;
    let mut i = start;
    while i < s.len()
        invariant
            start <= i <= s.len(),
            d == s@.skip(start as int),
            value <= cap,
            all_digits(d.take(i - start)),
            value == (if decimal_value(d.take(i - start)) > cap { cap as nat } else { decimal_value(d.take(i - start)) }),
            cap == 0x8000_0000_0000_0001,
            signed == (s@.len() > 0 && (s@[0] == '+' || s@[0] == '-')),
            d == (if signed { s@.drop_first() } else { s@ }),
            limit == (if signed && s@[0] == '-' { 0x8000_0000_0000_0000u128 } else { 0x7fff_ffff_ffff_ffffu128 }),
        decreases s.len() - i,
    {
        let c = s[i];
        proof {
            assert(d[i - start] == s@[i as int]);
        }
        if !('0' <= c && c <= '9') {
            assert(!('0' <= d[i - start] && d[i - start] <= '9'));
            assert(!all_digits(d));
            return false;
        }
        let digit = (c as u32) - ('0' as u32);
        let ghost t = d.take(i - start + 1);
        proof {
            assert(t.drop_last() =~= d.take(i - start));
            assert(t.last() == c);
            assert(all_digits(t));
        }
        if value < cap {
            let next = value * 10 + digit as u128;
            value = if next > cap { cap } else { next };
        }
        i = i + 1;
    }
    assert(d.take(d.len() as int) =~= d);
    value <= limit
}

/// A hexadecimal digit, in either case.
pub open spec fn is_hex_digit(c: char) -> bool {
    ('0' <= c && c <= '9') || ('a' <= c && c <= 'f') || ('A' <= c && c <= 'F')
}

/// 32 hexadecimal digits.
pub open spec fn simple_uuid(s: Seq<char>) -> bool {
    s.len() == 32 && forall|i: int| 0 <= i < 32 ==> is_hex_digit(#[trigger] s[i])
}

/// Hexadecimal digits in groups of 8, 4, 4, 4 and 12, joined by hyphens.
pub open spec fn hyphenated_uuid(s: Seq<char>) -> bool {
    &&& s.len() == 36
    &&& forall|i: int| 0 <= i < 36 ==> (if i == 8 || i == 13 || i == 18 || i == 23 {
            #[trigger] s[i] == '-'
        } else {
            is_hex_digit(s[i])
        })
}

/// A hyphenated uuid in braces.
pub open spec fn braced_uuid(s: Seq<char>) -> bool {
    s.len() == 38 && s[0] == '{' && s[37] == '}' && hyphenated_uuid(s.subrange(1, 37))
}

/// `urn:uuid:`, letters in either case, before a hyphenated uuid.
pub open spec fn urn_uuid(s: Seq<char>) -> bool {
    &&& s.len() == 45
    &&& (s[0] == 'u' || s[0] == 'U') && (s[1] == 'r' || s[1] == 'R') && (s[2] == 'n' || s[2] == 'N')
    &&& s[3] == ':'
    &&& (s[4] == 'u' || s[4] == 'U') && (s[5] == 'u' || s[5] == 'U') && (s[6] == 'i' || s[6] == 'I')
    &&& (s[7] == 'd' || s[7] == 'D')
    &&& s[8] == ':'
    &&& hyphenated_uuid(s.subrange(9, 45))
}

/// The texts that `uuid::Uuid::parse_str` accepts.
pub open spec fn uuid_text(s: Seq<char>) -> bool {
    simple_uuid(s) || hyphenated_uuid(s) || braced_uuid(s) || urn_uuid(s)
}

/// Calls `uuid::Uuid::parse_str`, which accepts exactly the simple,
/// hyphenated, braced and `urn:uuid:` forms of `uuid_text`, with hexadecimal
/// digits in either case; the value it parses is not kept.
#[verifier::external_body]
fn uuid_parses(s: &str) -> (r: bool)
    ensures
        r == uuid_text(s@),
{
    match uuid::Uuid::parse_str(s) {
        Ok(_) => true,
        Err(_) => false,
    }
}

/// A file stem the application writes: a timestamp, `_`, and a uuid, split at
/// the first underscore.
pub open spec fn app_managed_stem(stem: Seq<char>) -> bool {
    match find_first(stem, seq!['_']) {
        Some(k) => parses_as_i64(stem.take(k)) && uuid_text(stem.skip(k + 1)),
        None => false,
    }
}

/// Whether a recording's file stem is one the application gives its
/// recordings.
pub fn is_app_managed_recording_stem(stem: &str) -> (r: bool)
    ensures
        r == app_managed_stem(stem@),
{
    let chars = chars_of(stem);
    let mut underscore: Vec<char> = Vec::new();
    underscore.push('_');
    assert(underscore@ =~= seq!['_']);
    match find_chars(&chars, &underscore) {
        None => false,
        Some(k) => {
            proof {
                lemma_find_first_bounds(chars@, underscore@);
            }
            let mut head: Vec<char> = Vec::new();
            let mut j: usize = 0;
            while j < k
                invariant
                    j <= k < chars.len(),
                    head@ == chars@.take(j as int),
                decreases k - j,
            {
                head.push(chars[j]);
                j = j + 1;
            }
            if !is_i64_text(&head) {
                return false;
            }
            let mut tail = String::new();
            let mut j: usize = k + 1;
            while j < chars.len()
                invariant
                    k < j <= chars.len(),
                    tail@ == chars@.subrange(k + 1, j as int),
                decreases chars.len() - j,
            {
                crate::text::push_char(&mut tail, chars[j]);
                proof {
                    assert(chars@.subrange(k + 1, j + 1) =~= chars@.subrange(k + 1, j as int).push(chars@[j as int]));
                }
                j = j + 1;
            }
            assert(tail@ =~= chars@.skip(k + 1));
            uuid_parses(tail.as_str())
        },
    }
}

} // verus!
