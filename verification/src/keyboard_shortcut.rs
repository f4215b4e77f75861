//! Parsing of keyboard shortcuts such as `Cmd+Opt+Ctrl+A`.

use vstd::prelude::*;
use crate::text::{
    ascii_lowercase, ascii_upper, chars_eq_ignore_ascii_case, chars_eq_str, chars_of,
    eq_ignore_ascii_case, split_char, split_chars, string_from, to_ascii_lowercase, to_ascii_upper,
    trim, trim_chars, views,
};

verus! {

broadcast use vstd::string::group_string_axioms;

/// The main key of a shortcut.
#[derive(Debug, Clone, Copy, PartialEq, Eq, Structural)]
pub enum ShortcutKey {
    Character(char),
    Space,
    Function(u8),
}

/// A parsed keyboard shortcut: modifiers and one main key.
#[derive(Debug, Clone, Copy, PartialEq, Eq, Structural)]
pub struct KeyboardShortcut {
    pub command: bool,
    pub option: bool,
    pub control: bool,
    pub shift: bool,
    pub key: ShortcutKey,
}

/// Modifiers and main key seen so far while reading the tokens.
#[derive(Debug, Clone, Copy, PartialEq, Eq, Structural)]
pub struct ShortcutProgress {
    pub command: bool,
    pub option: bool,
    pub control: bool,
    pub shift: bool,
    pub key: Option<ShortcutKey>,
}

/// Value of a string of ASCII decimal digits.
pub open spec fn decimal_value(d: Seq<char>) -> nat
    decreases d.len(),
{
    if d.len() == 0 {
        0
    } else {
        decimal_value(d.drop_last()) * 10 + ((d.last() as u32) - ('0' as u32)) as nat
    }
}

pub open spec fn all_digits(d: Seq<char>) -> bool {
    forall|i: int| 0 <= i < d.len() ==> '0' <= #[trigger] d[i] && d[i] <= '9'
}

/// What `u8::from_str` accepts: an optional `+` followed by decimal digits
/// whose value fits in a byte.
pub open spec fn parsed_u8(s: Seq<char>) -> Option<u8> {
    let d = if s.len() > 1 && s[0] == '+' { s.drop_first() } else { s };
    if d.len() > 0 && all_digits(d) && decimal_value(d) <= 255 {
        Some(decimal_value(d) as u8)
    } else {
        None
    }
}

/// Executable `u8::from_str` on characters.
pub fn parse_u8(s: &Vec<char>) -> (r: Option<u8>)
    ensures
        r == parsed_u8(s@),
{
    let start: usize = if s.len() > 1 && s[0] == '+' { 1 } else { 0 };
    let ghost d = if s@.len() > 1 && s@[0] == '+' { s@.drop_first() } else { s@ };
    if start >= s.len() {
        assert(d.len() == 0);
        return None;
    }
    assert(d =~= s@.skip(start as int));
    let mut value: u32 = 0;
    let mut i = start;
    while i < s.len()
        invariant
            start <= i <= s.len(),
            d == s@.skip(start as int),
            d == (if s@.len() > 1 && s@[0] == '+' { s@.drop_first() } else { s@ }),
            start == (if s@.len() > 1 && s@[0] == '+' { 1int } else { 0int }),
            value <= 256,
            all_digits(d.take(i - start)),
            value == (if decimal_value(d.take(i - start)) > 256 { 256 } else { decimal_value(d.take(i - start)) }),
        decreases s.len() - i,
    {
        let c = s[i];
        proof {
            assert(d[i - start] == s@[i as int]);
        }
        if !('0' <= c && c <= '9') {
            assert(!('0' <= d[i - start] && d[i - start] <= '9'));
            assert(!all_digits(d));
            return None;
        }
        let digit = (c as u32) - ('0' as u32);
        let ghost t = d.take(i - start + 1);
        proof {
            assert(t.drop_last() =~= d.take(i - start));
            assert(t.last() == c);
            assert(all_digits(t));
        }
        if value == 256 {
            value = 256;
        } else {
            let next = value * 10 + digit;
            value = if next > 256 { 256 } else { next };
        }
        i = i + 1;
    }
    assert(d.take(d.len() as int) =~= d);
    if value <= 255 {
        Some(value as u8)
    } else {
        None
    }
}

/// Error text of a shortcut that could not be read.
pub open spec fn quoted_error(before: Seq<char>, item: Seq<char>, after: Seq<char>) -> Seq<char> {
    before + item + after
}

/// The main key named by a token.
pub open spec fn parsed_key(t: Seq<char>) -> Result<ShortcutKey, Seq<char>> {
    if eq_ignore_ascii_case(t, "space"@) {
        Ok(ShortcutKey::Space)
    } else if t.len() > 0 && (t[0] == 'F' || t[0] == 'f') {
        match parsed_u8(t.drop_first()) {
            Some(n) => if 1 <= n && n <= 20 {
                Ok(ShortcutKey::Function(n))
            } else {
                Err(quoted_error("function key '"@, t, "' is outside F1-F20"@))
            },
            None => Err(quoted_error("unknown shortcut key '"@, t, "'"@)),
        }
    } else if t.len() == 0 {
        Err("shortcut key is empty"@)
    } else if t.len() == 1 && (('0' <= t[0] && t[0] <= '9') || ('a' <= t[0] && t[0] <= 'z') || ('A' <= t[0] && t[0] <= 'Z')) {
        Ok(ShortcutKey::Character(ascii_upper(t[0])))
    } else {
        Err(quoted_error("unknown shortcut key '"@, t, "'"@))
    }
}

fn quoted(before: &str, item: &Vec<char>, after: &str) -> (r: String)
    ensures
        r@ == quoted_error(before@, item@, after@),
{
    let mut v = chars_of(before);
    crate::text::append_chars(&mut v, item);
    let a = chars_of(after);
    crate::text::append_chars(&mut v, &a);
    string_from(&v)
}

/// Reads the main key of a shortcut.
pub fn parse_key(token: &Vec<char>) -> (r: Result<ShortcutKey, String>)
    ensures
        match r {
            Ok(k) => parsed_key(token@) == Ok::<ShortcutKey, Seq<char>>(k),
            Err(e) => parsed_key(token@) == Err::<ShortcutKey, Seq<char>>(e@),
        },
{
    let space = chars_of("space");
    if chars_eq_ignore_ascii_case(token, &space) {
        return Ok(ShortcutKey::Space);
    }
    if token.len() > 0 && (token[0] == 'F' || token[0] == 'f') {
        let mut rest: Vec<char> = Vec::new();
        let mut i: usize = 1;
        while i < token.len()
            invariant
                1 <= i <= token.len(),
                rest@ == token@.subrange(1, i as int),
            decreases token.len() - i,
        {
            rest.push(token[i]);
            assert(token@.subrange(1, i + 1) == token@.subrange(1, i as int).push(token@[i as int]));
            i = i + 1;
        }
        assert(rest@ =~= token@.drop_first());
        return match parse_u8(&rest) {
            Some(n) => if 1 <= n && n <= 20 {
                Ok(ShortcutKey::Function(n))
            } else {
                Err(quoted("function key '", token, "' is outside F1-F20"))
            },
            None => Err(quoted("unknown shortcut key '", token, "'")),
        };
    }
    if token.len() == 0 {
        return Err(crate::text::owned("shortcut key is empty"));
    }
    let c = token[0];
    if token.len() == 1 && (('0' <= c && c <= '9') || ('a' <= c && c <= 'z') || ('A' <= c && c <= 'Z')) {
        return Ok(ShortcutKey::Character(to_ascii_upper(c)));
    }
    Err(quoted("unknown shortcut key '", token, "'"))
}

/// Which modifier a lower-cased token names: 0 command, 1 option, 2 control,
/// 3 shift, -1 none.
pub open spec fn modifier_of(n: Seq<char>) -> int {
    if n == "cmd"@ || n == "command"@ {
        0
    } else if n == "opt"@ || n == "option"@ || n == "alt"@ {
        1
    } else if n == "ctrl"@ || n == "control"@ {
        2
    } else if n == "shift"@ {
        3
    } else {
        -1
    }
}

pub open spec fn modifier_set(p: ShortcutProgress, m: int) -> bool {
    if m == 0 { p.command } else if m == 1 { p.option } else if m == 2 { p.control } else { p.shift }
}

pub open spec fn with_modifier(p: ShortcutProgress, m: int) -> ShortcutProgress {
    if m == 0 {
        ShortcutProgress { command: true, ..p }
    } else if m == 1 {
        ShortcutProgress { option: true, ..p }
    } else if m == 2 {
        ShortcutProgress { control: true, ..p }
    } else {
        ShortcutProgress { shift: true, ..p }
    }
}

/// Reading one `+`-separated token of the shortcut `v`.
pub open spec fn token_step(v: Seq<char>, p: ShortcutProgress, raw: Seq<char>) -> Result<ShortcutProgress, Seq<char>> {
    let t = trim(raw);
    if t.len() == 0 {
        Err(quoted_error("shortcut '"@, v, "' contains an empty token"@))
    } else {
        let m = modifier_of(ascii_lowercase(t));
        if m >= 0 {
            if modifier_set(p, m) {
                Err(quoted_error("shortcut contains duplicate modifier '"@, t, "'"@))
            } else {
                Ok(with_modifier(p, m))
            }
        } else if p.key is Some {
            Err(quoted_error("shortcut '"@, v, "' contains multiple main keys"@))
        } else {
            match parsed_key(t) {
                Ok(k) => Ok(ShortcutProgress { key: Some(k), ..p }),
                Err(e) => Err(e),
            }
        }
    }
}

pub open spec fn no_progress() -> ShortcutProgress {
    ShortcutProgress { command: false, option: false, control: false, shift: false, key: None }
}

/// Reading the tokens in order; the first error stops the reading.
pub open spec fn read_tokens(v: Seq<char>, toks: Seq<Seq<char>>) -> Result<ShortcutProgress, Seq<char>>
    decreases toks.len(),
{
    if toks.len() == 0 {
        Ok(no_progress())
    } else {
        match read_tokens(v, toks.drop_last()) {
            Ok(p) => token_step(v, p, toks.last()),
            Err(e) => Err(e),
        }
    }
}

/// The shortcut that `value` denotes, or the message saying why it denotes none.
pub open spec fn parsed_shortcut(value: Seq<char>) -> Result<KeyboardShortcut, Seq<char>> {
    let v = trim(value);
    if v.len() == 0 {
        Err("shortcut is empty"@)
    } else {
        match read_tokens(v, split_char(v, '+')) {
            Err(e) => Err(e),
            Ok(p) => if !p.command && !p.option && !p.control && !p.shift {
                Err(quoted_error("shortcut '"@, v, "' must include at least one modifier"@))
            } else {
                match p.key {
                    Some(k) => Ok(KeyboardShortcut { command: p.command, option: p.option, control: p.control, shift: p.shift, key: k }),
                    None => Err(quoted_error("shortcut '"@, v, "' has no main key"@)),
                }
            },
        }
    }
}

/// Once reading fails, reading more tokens fails the same way.
proof fn lemma_read_tokens_err(v: Seq<char>, toks: Seq<Seq<char>>, k: int)
    requires
        0 <= k <= toks.len(),
        read_tokens(v, toks.take(k)) is Err,
    ensures
        read_tokens(v, toks) == read_tokens(v, toks.take(k)),
    decreases toks.len() - k,
{
    if k < toks.len() {
        assert(toks.drop_last().take(k) =~= toks.take(k));
        lemma_read_tokens_err(v, toks.drop_last(), k);
    } else {
        assert(toks.take(k) =~= toks);
    }
}

fn modifier_exec(n: &Vec<char>) -> (m: i8)
    ensures
        m as int == modifier_of(n@),
{
    if chars_eq_str(n, "cmd") || chars_eq_str(n, "command") {
        0
    } else if chars_eq_str(n, "opt") || chars_eq_str(n, "option") || chars_eq_str(n, "alt") {
        1
    } else if chars_eq_str(n, "ctrl") || chars_eq_str(n, "control") {
        2
    } else if chars_eq_str(n, "shift") {
        3
    } else {
        -1
    }
}

/// Parses a shortcut: `+`-separated modifiers (`Cmd`, `Opt`/`Alt`, `Ctrl`,
/// `Shift`, any ASCII case) and exactly one main key (a letter, a digit,
/// `Space` or `F1`..`F20`); at least one modifier is required.
pub fn parse(value: &str) -> (r: Result<KeyboardShortcut, String>)
    ensures
        match r {
            Ok(s) => parsed_shortcut(value@) == Ok::<KeyboardShortcut, Seq<char>>(s),
            Err(e) => parsed_shortcut(value@) == Err::<KeyboardShortcut, Seq<char>>(e@),
        },
{
    let v = trim_chars(&chars_of(value));
    if v.len() == 0 {
        return Err(crate::text::owned("shortcut is empty"));
    }
    let tokens = split_chars(&v, '+');
    let mut p = ShortcutProgress { command: false, option: false, control: false, shift: false, key: None };
    let mut i: usize = 0;
    let ghost toks = views(tokens@);
    assert(toks.take(0) =~= Seq::<Seq<char>>::empty());
    while i < tokens.len()
        invariant
            i <= tokens.len(),
            toks == views(tokens@),
            toks == split_char(v@, '+'),
            v@ == trim(value@),
            v@.len() > 0,
            read_tokens(v@, toks.take(i as int)) == Ok::<ShortcutProgress, Seq<char>>(p),
        decreases tokens.len() - i,
    {
        proof {
            assert(toks.take(i + 1).drop_last() =~= toks.take(i as int));
            assert(toks.take(i + 1).last() == tokens@[i as int]@);
            assert(read_tokens(v@, toks.take(i + 1)) == token_step(v@, p, tokens@[i as int]@));
        }
        let t = trim_chars(&tokens[i]);
        if t.len() == 0 {
            proof {
                lemma_read_tokens_err(v@, toks, i + 1);
            }
            return Err(quoted("shortcut '", &v, "' contains an empty token"));
        }
        let n = to_ascii_lowercase(&t);
        let m = modifier_exec(&n);
        if m >= 0 {
            let already = if m == 0 { p.command } else if m == 1 { p.option } else if m == 2 { p.control } else { p.shift };
            if already {
                proof {
                    lemma_read_tokens_err(v@, toks, i + 1);
                }
                return Err(quoted("shortcut contains duplicate modifier '", &t, "'"));
            }
            if m == 0 {
                p.command = true;
            } else if m == 1 {
                p.option = true;
            } else if m == 2 {
                p.control = true;
            } else {
                p.shift = true;
            }
        } else {
            if p.key.is_some() {
                proof {
                    lemma_read_tokens_err(v@, toks, i + 1);
                }
                return Err(quoted("shortcut '", &v, "' contains multiple main keys"));
            }
            match parse_key(&t) {
                Ok(k) => { p.key = Some(k); },
                Err(e) => {
                    proof {
                        lemma_read_tokens_err(v@, toks, i + 1);
                    }
                    return Err(e);
                },
            }
        }
        i = i + 1;
    }
    assert(toks.take(tokens.len() as int) =~= toks);
    if !p.command && !p.option && !p.control && !p.shift {
        return Err(quoted("shortcut '", &v, "' must include at least one modifier"));
    }
    match p.key {
        Some(k) => Ok(KeyboardShortcut { command: p.command, option: p.option, control: p.control, shift: p.shift, key: k }),
        None => Err(quoted("shortcut '", &v, "' has no main key")),
    }
}

/// Modifier flags as the macOS event system numbers them.
pub open spec fn flags_spec(s: KeyboardShortcut) -> int {
    (if s.command { 0x100000int } else { 0 }) + (if s.option { 0x80000int } else { 0 })
        + (if s.control { 0x40000int } else { 0 }) + (if s.shift { 0x20000int } else { 0 })
}

/// The event flags of a shortcut's modifiers.
pub fn event_flags(shortcut: KeyboardShortcut) -> (r: u64)
    ensures
        r == flags_spec(shortcut),
{
    let mut flags: u64 = 0;
    if shortcut.command {
        flags = flags + 0x100000;
    }
    if shortcut.option {
        flags = flags + 0x80000;
    }
    if shortcut.control {
        flags = flags + 0x40000;
    }
    if shortcut.shift {
        flags = flags + 0x20000;
    }
    flags
}

/// The macOS virtual key code of a letter or digit key.
pub open spec fn char_key_code(c: char) -> Option<u16> {
    if c == 'A' {
        Some(0x00)
    } else if c == 'S' {
        Some(0x01)
    } else if c == 'D' {
        Some(0x02)
    } else if c == 'F' {
        Some(0x03)
    } else if c == 'H' {
        Some(0x04)
    } else if c == 'G' {
        Some(0x05)
    } else if c == 'Z' {
        Some(0x06)
    } else if c == 'X' {
        Some(0x07)
    } else if c == 'C' {
        Some(0x08)
    } else if c == 'V' {
        Some(0x09)
    } else if c == 'B' {
        Some(0x0b)
    } else if c == 'Q' {
        Some(0x0c)
    } else if c == 'W' {
        Some(0x0d)
    } else if c == 'E' {
        Some(0x0e)
    } else if c == 'R' {
        Some(0x0f)
    } else if c == 'Y' {
        Some(0x10)
    } else if c == 'T' {
        Some(0x11)
    } else if c == '1' {
        Some(0x12)
    } else if c == '2' {
        Some(0x13)
    } else if c == '3' {
        Some(0x14)
    } else if c == '4' {
        Some(0x15)
    } else if c == '6' {
        Some(0x16)
    } else if c == '5' {
        Some(0x17)
    } else if c == '9' {
        Some(0x19)
    } else if c == '7' {
        Some(0x1a)
    } else if c == '8' {
        Some(0x1c)
    } else if c == '0' {
        Some(0x1d)
    } else if c == 'O' {
        Some(0x1f)
    } else if c == 'U' {
        Some(0x20)
    } else if c == 'I' {
        Some(0x22)
    } else if c == 'P' {
        Some(0x23)
    } else if c == 'L' {
        Some(0x25)
    } else if c == 'J' {
        Some(0x26)
    } else if c == 'K' {
        Some(0x28)
    } else if c == 'N' {
        Some(0x2d)
    } else if c == 'M' {
        Some(0x2e)
    } else {
        None
    }
}

/// The macOS virtual key code of function key F`n`.
pub open spec fn function_key_code(n: u8) -> Option<u16> {
    if n == 1u8 {
        Some(0x7a)
    } else if n == 2u8 {
        Some(0x78)
    } else if n == 3u8 {
        Some(0x63)
    } else if n == 4u8 {
        Some(0x76)
    } else if n == 5u8 {
        Some(0x60)
    } else if n == 6u8 {
        Some(0x61)
    } else if n == 7u8 {
        Some(0x62)
    } else if n == 8u8 {
        Some(0x64)
    } else if n == 9u8 {
        Some(0x65)
    } else if n == 10u8 {
        Some(0x6d)
    } else if n == 11u8 {
        Some(0x67)
    } else if n == 12u8 {
        Some(0x6f)
    } else if n == 13u8 {
        Some(0x69)
    } else if n == 14u8 {
        Some(0x6b)
    } else if n == 15u8 {
        Some(0x71)
    } else if n == 16u8 {
        Some(0x6a)
    } else if n == 17u8 {
        Some(0x40)
    } else if n == 18u8 {
        Some(0x4f)
    } else if n == 19u8 {
        Some(0x50)
    } else if n == 20u8 {
        Some(0x5a)
    } else {
        None
    }
}

/// The macOS virtual key code of a shortcut's main key, if it has one.
pub open spec fn key_code_spec(key: ShortcutKey) -> Option<u16> {
    match key {
        ShortcutKey::Character(c) => char_key_code(c),
        ShortcutKey::Space => Some(0x31),
        ShortcutKey::Function(n) => function_key_code(n),
    }
}

fn char_code(c: char) -> (r: Option<u16>)
    ensures
        r == char_key_code(c),
{
    if c == 'A' {
        Some(0x00)
    } else if c == 'S' {
        Some(0x01)
    } else if c == 'D' {
        Some(0x02)
    } else if c == 'F' {
        Some(0x03)
    } else if c == 'H' {
        Some(0x04)
    } else if c == 'G' {
        Some(0x05)
    } else if c == 'Z' {
        Some(0x06)
    } else if c == 'X' {
        Some(0x07)
    } else if c == 'C' {
        Some(0x08)
    } else if c == 'V' {
        Some(0x09)
    } else if c == 'B' {
        Some(0x0b)
    } else if c == 'Q' {
        Some(0x0c)
    } else if c == 'W' {
        Some(0x0d)
    } else if c == 'E' {
        Some(0x0e)
    } else if c == 'R' {
        Some(0x0f)
    } else if c == 'Y' {
        Some(0x10)
    } else if c == 'T' {
        Some(0x11)
    } else if c == '1' {
        Some(0x12)
    } else if c == '2' {
        Some(0x13)
    } else if c == '3' {
        Some(0x14)
    } else if c == '4' {
        Some(0x15)
    } else if c == '6' {
        Some(0x16)
    } else if c == '5' {
        Some(0x17)
    } else if c == '9' {
        Some(0x19)
    } else if c == '7' {
        Some(0x1a)
    } else if c == '8' {
        Some(0x1c)
    } else if c == '0' {
        Some(0x1d)
    } else if c == 'O' {
        Some(0x1f)
    } else if c == 'U' {
        Some(0x20)
    } else if c == 'I' {
        Some(0x22)
    } else if c == 'P' {
        Some(0x23)
    } else if c == 'L' {
        Some(0x25)
    } else if c == 'J' {
        Some(0x26)
    } else if c == 'K' {
        Some(0x28)
    } else if c == 'N' {
        Some(0x2d)
    } else if c == 'M' {
        Some(0x2e)
    } else {
        None
    }
}

fn function_code(n: u8) -> (r: Option<u16>)
    ensures
        r == function_key_code(n),
{
    if n == 1u8 {
        Some(0x7a)
    } else if n == 2u8 {
        Some(0x78)
    } else if n == 3u8 {
        Some(0x63)
    } else if n == 4u8 {
        Some(0x76)
    } else if n == 5u8 {
        Some(0x60)
    } else if n == 6u8 {
        Some(0x61)
    } else if n == 7u8 {
        Some(0x62)
    } else if n == 8u8 {
        Some(0x64)
    } else if n == 9u8 {
        Some(0x65)
    } else if n == 10u8 {
        Some(0x6d)
    } else if n == 11u8 {
        Some(0x67)
    } else if n == 12u8 {
        Some(0x6f)
    } else if n == 13u8 {
        Some(0x69)
    } else if n == 14u8 {
        Some(0x6b)
    } else if n == 15u8 {
        Some(0x71)
    } else if n == 16u8 {
        Some(0x6a)
    } else if n == 17u8 {
        Some(0x40)
    } else if n == 18u8 {
        Some(0x4f)
    } else if n == 19u8 {
        Some(0x50)
    } else if n == 20u8 {
        Some(0x5a)
    } else {
        None
    }
}

/// The key code to post for a shortcut's main key; other keys are refused.
pub fn key_code(key: ShortcutKey) -> (r: Result<u16, String>)
    ensures
        match key_code_spec(key) {
            Some(k) => r == Ok::<u16, String>(k),
            None => r matches Err(e) && e@ == "Unsupported macOS shortcut key"@,
        },
{
    let code = match key {
        ShortcutKey::Character(c) => char_code(c),
        ShortcutKey::Space => Some(0x31),
        ShortcutKey::Function(n) => function_code(n),
    };
    match code {
        Some(k) => Ok(k),
        None => Err(crate::text::owned("Unsupported macOS shortcut key")),
    }
}

/// Every letter and digit key has a key code.
proof fn lemma_char_key_code(c: char)
    requires
        ('0' <= c && c <= '9') || ('A' <= c && c <= 'Z'),
    ensures
        char_key_code(c) is Some,
{
    let u = c as u32;
    assert(48 <= u <= 57 || 65 <= u <= 90);
}

/// Every key a token names has a key code.
proof fn lemma_parsed_key_has_code(t: Seq<char>)
    ensures
        parsed_key(t) matches Ok(k) ==> key_code_spec(k) is Some,
{
    if !eq_ignore_ascii_case(t, "space"@) && !(t.len() > 0 && (t[0] == 'F' || t[0] == 'f')) && t.len() == 1
        && (('0' <= t[0] && t[0] <= '9') || ('a' <= t[0] && t[0] <= 'z') || ('A' <= t[0] && t[0] <= 'Z')) {
        let c = ascii_upper(t[0]);
        assert(('0' <= c && c <= '9') || ('A' <= c && c <= 'Z'));
        lemma_char_key_code(c);
    }
}

proof fn lemma_read_tokens_key_has_code(v: Seq<char>, toks: Seq<Seq<char>>)
    ensures
        read_tokens(v, toks) matches Ok(p) ==> (p.key matches Some(k) ==> key_code_spec(k) is Some),
    decreases toks.len(),
{
    if toks.len() > 0 {
        lemma_read_tokens_key_has_code(v, toks.drop_last());
        lemma_parsed_key_has_code(trim(toks.last()));
    }
}

/// Every shortcut that parses has a main key with a macOS key code.
pub proof fn law_parsed_shortcut_has_key_code(value: Seq<char>)
    ensures
        parsed_shortcut(value) matches Ok(s) ==> key_code_spec(s.key) is Some,
{
    let v = trim(value);
    lemma_read_tokens_key_has_code(v, split_char(v, '+'));
}

} // verus!
