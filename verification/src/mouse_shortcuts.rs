//! Parsing of mouse-button shortcuts such as `Ctrl+Shift+MouseBack`.

use vstd::prelude::*;
use crate::text::{
    chars_of, join_chars, join_seq, split_char, split_chars, string_from, to_uppercase, trim,
    trim_chars, unicode_uppercase, views,
};

verus! {

broadcast use vstd::string::group_string_axioms;

/// A mouse button that can trigger recording.
#[derive(Debug, Clone, Copy, PartialEq, Eq, Hash, Structural)]
pub enum MouseShortcutButton {
    Middle,
    Back,
    Forward,
}

/// Modifier keys held together with the mouse button.
#[derive(Debug, Clone, Copy, PartialEq, Eq, Hash, Structural)]
pub struct MouseShortcutModifiers {
    pub ctrl: bool,
    pub alt: bool,
    pub shift: bool,
    pub meta: bool,
}

impl Default for MouseShortcutModifiers {
    fn default() -> (r: Self)
        ensures
            r == no_modifiers(),
    {
        MouseShortcutModifiers { ctrl: false, alt: false, shift: false, meta: false }
    }
}

/// A mouse button with its modifiers.
#[derive(Debug, Clone, Copy, PartialEq, Eq, Hash, Structural)]
pub struct MouseShortcut {
    pub modifiers: MouseShortcutModifiers,
    pub button: MouseShortcutButton,
}

pub open spec fn no_modifiers() -> MouseShortcutModifiers {
    MouseShortcutModifiers { ctrl: false, alt: false, shift: false, meta: false }
}

/// A token with spaces, underscores and hyphens removed.
pub open spec fn without_separators(t: Seq<char>) -> Seq<char> {
    t.filter(|c: char| c != ' ' && c != '_' && c != '-')
}

/// The form in which tokens are compared: separators removed, upper-cased.
pub open spec fn normalized(t: Seq<char>) -> Seq<char> {
    unicode_uppercase(without_separators(t))
}

/// Which modifier a normalised token names: 0 ctrl, 1 alt, 2 shift, 3 meta,
/// -1 none. `CommandOrControl` names Ctrl, as mouse shortcuts are served on
/// Windows.
pub open spec fn mouse_modifier_of(n: Seq<char>) -> int {
    if n == "CTRL"@ || n == "CONTROL"@ || n == "COMMANDORCONTROL"@ || n == "COMMANDORCTRL"@
        || n == "CMDORCONTROL"@ || n == "CMDORCTRL"@ {
        0
    } else if n == "ALT"@ || n == "OPTION"@ {
        1
    } else if n == "SHIFT"@ {
        2
    } else if n == "CMD"@ || n == "COMMAND"@ || n == "SUPER"@ || n == "WIN"@ || n == "WINDOWS"@
        || n == "META"@ {
        3
    } else {
        -1
    }
}

/// The mouse button a normalised token names.
pub open spec fn mouse_button_of(n: Seq<char>) -> Option<MouseShortcutButton> {
    if n == "MOUSEMIDDLE"@ || n == "MIDDLEMOUSE"@ || n == "MOUSEBUTTONMIDDLE"@
        || n == "MIDDLEMOUSEBUTTON"@ || n == "MBUTTON"@ {
        Some(MouseShortcutButton::Middle)
    } else if n == "MOUSEBACK"@ || n == "BACKMOUSE"@ || n == "MOUSEBUTTONBACK"@
        || n == "BACKMOUSEBUTTON"@ || n == "XBUTTON1"@ {
        Some(MouseShortcutButton::Back)
    } else if n == "MOUSEFORWARD"@ || n == "FORWARDMOUSE"@ || n == "MOUSEBUTTONFORWARD"@
        || n == "FORWARDMOUSEBUTTON"@ || n == "XBUTTON2"@ {
        Some(MouseShortcutButton::Forward)
    } else {
        None
    }
}

/// Each mouse button has its own names, and no name serves two buttons:
/// a name of the middle, back or forward button (in its normalised, upper
/// case form) parses to that button, and a name that parses to a button is
/// one of that button's names.
pub proof fn law_mouse_button_names_are_disjoint(n: Seq<char>)
    ensures
        (n == "MOUSEMIDDLE"@ || n == "MIDDLEMOUSE"@ || n == "MOUSEBUTTONMIDDLE"@ || n == "MIDDLEMOUSEBUTTON"@ || n == "MBUTTON"@) <==> mouse_button_of(n) == Some(MouseShortcutButton::Middle),
        (n == "MOUSEBACK"@ || n == "BACKMOUSE"@ || n == "MOUSEBUTTONBACK"@ || n == "BACKMOUSEBUTTON"@ || n == "XBUTTON1"@) <==> mouse_button_of(n) == Some(MouseShortcutButton::Back),
        (n == "MOUSEFORWARD"@ || n == "FORWARDMOUSE"@ || n == "MOUSEBUTTONFORWARD"@ || n == "FORWARDMOUSEBUTTON"@ || n == "XBUTTON2"@) <==> mouse_button_of(n) == Some(MouseShortcutButton::Forward),
{
    reveal_strlit("MOUSEMIDDLE");
    reveal_strlit("MIDDLEMOUSE");
    reveal_strlit("MOUSEBUTTONMIDDLE");
    reveal_strlit("MIDDLEMOUSEBUTTON");
    reveal_strlit("MBUTTON");
    reveal_strlit("MOUSEBACK");
    reveal_strlit("BACKMOUSE");
    reveal_strlit("MOUSEBUTTONBACK");
    reveal_strlit("BACKMOUSEBUTTON");
    reveal_strlit("XBUTTON1");
    reveal_strlit("MOUSEFORWARD");
    reveal_strlit("FORWARDMOUSE");
    reveal_strlit("MOUSEBUTTONFORWARD");
    reveal_strlit("FORWARDMOUSEBUTTON");
    reveal_strlit("XBUTTON2");
    assert("MOUSEMIDDLE"@.len() == 11);
    assert("MIDDLEMOUSE"@.len() == 11);
    assert("MOUSEBUTTONMIDDLE"@.len() == 17);
    assert("MIDDLEMOUSEBUTTON"@.len() == 17);
    assert("MBUTTON"@.len() == 7);
    assert("MOUSEBACK"@.len() == 9);
    assert("BACKMOUSE"@.len() == 9);
    assert("MOUSEBUTTONBACK"@.len() == 15);
    assert("BACKMOUSEBUTTON"@.len() == 15);
    assert("XBUTTON1"@.len() == 8);
    assert("MOUSEFORWARD"@.len() == 12);
    assert("FORWARDMOUSE"@.len() == 12);
    assert("MOUSEBUTTONFORWARD"@.len() == 18);
    assert("FORWARDMOUSEBUTTON"@.len() == 18);
    assert("XBUTTON2"@.len() == 8);
    assert("XBUTTON1"@[7] != "XBUTTON2"@[7]);
}

pub open spec fn with_mouse_modifier(m: MouseShortcutModifiers, k: int) -> MouseShortcutModifiers {
    if k == 0 {
        MouseShortcutModifiers { ctrl: true, ..m }
    } else if k == 1 {
        MouseShortcutModifiers { alt: true, ..m }
    } else if k == 2 {
        MouseShortcutModifiers { shift: true, ..m }
    } else {
        MouseShortcutModifiers { meta: true, ..m }
    }
}

/// What has been read of a mouse shortcut: modifiers, button, and the tokens
/// that named neither.
pub type MouseProgress = (MouseShortcutModifiers, Option<MouseShortcutButton>, Seq<Seq<char>>);

/// Reading one `+`-separated token of `value`; empty tokens are skipped.
pub open spec fn mouse_step(value: Seq<char>, p: MouseProgress, raw: Seq<char>) -> Result<MouseProgress, Seq<char>> {
    let t = trim(raw);
    if t.len() == 0 {
        Ok(p)
    } else {
        let n = normalized(t);
        let k = mouse_modifier_of(n);
        if k >= 0 {
            Ok((with_mouse_modifier(p.0, k), p.1, p.2))
        } else {
            match mouse_button_of(n) {
                Some(b) => if p.1 is Some {
                    Err("Mouse shortcut '"@ + value + "' contains multiple mouse buttons"@)
                } else {
                    Ok((p.0, Some(b), p.2))
                },
                None => Ok((p.0, p.1, p.2.push(t))),
            }
        }
    }
}

/// Reading the tokens in order; the first error stops the reading.
pub open spec fn mouse_read(value: Seq<char>, toks: Seq<Seq<char>>) -> Result<MouseProgress, Seq<char>>
    decreases toks.len(),
{
    if toks.len() == 0 {
        Ok((no_modifiers(), None, Seq::<Seq<char>>::empty()))
    } else {
        match mouse_read(value, toks.drop_last()) {
            Ok(p) => mouse_step(value, p, toks.last()),
            Err(e) => Err(e),
        }
    }
}

/// The mouse shortcut that `value` denotes: `None` when it names no mouse
/// button (a keyboard shortcut), an error when it names two buttons or a
/// button together with keyboard keys.
pub open spec fn parsed_mouse_shortcut(value: Seq<char>) -> Result<Option<MouseShortcut>, Seq<char>> {
    match mouse_read(value, split_char(value, '+')) {
        Err(e) => Err(e),
        Ok(p) => match p.1 {
            None => Ok(None),
            Some(b) => if p.2.len() > 0 {
                Err("Mouse shortcut '"@ + value + "' cannot include keyboard key '"@ + join_seq(p.2, "+"@) + "'"@)
            } else {
                Ok(Some(MouseShortcut { modifiers: p.0, button: b }))
            },
        },
    }
}

proof fn lemma_mouse_read_err(value: Seq<char>, toks: Seq<Seq<char>>, k: int)
    requires
        0 <= k <= toks.len(),
        mouse_read(value, toks.take(k)) is Err,
    ensures
        mouse_read(value, toks) == mouse_read(value, toks.take(k)),
    decreases toks.len() - k,
{
    if k < toks.len() {
        assert(toks.drop_last().take(k) =~= toks.take(k));
        lemma_mouse_read_err(value, toks.drop_last(), k);
    } else {
        assert(toks.take(k) =~= toks);
    }
}

/// A token in the form in which it is compared: spaces, underscores and
/// hyphens removed, then upper-cased.
pub fn normalized_token(value: &str) -> (r: String)
    ensures
        r@ == normalized(value@),
{
    let chars = chars_of(value);
    let mut kept: Vec<char> = Vec::new();
    let mut i: usize = 0;
    while i < chars.len()
        invariant
            i <= chars.len(),
            chars@ == value@,
            kept@ == without_separators(chars@.take(i as int)),
        decreases chars.len() - i,
    {
        let c = chars[i];
        proof {
            assert(chars@.take(i + 1).drop_last() =~= chars@.take(i as int));
            reveal_with_fuel(Seq::filter, 1);
        }
        if c != ' ' && c != '_' && c != '-' {
            kept.push(c);
        }
        i = i + 1;
    }
    assert(chars@.take(chars.len() as int) =~= chars@);
    let s = string_from(&kept);
    to_uppercase(s.as_str())
}

fn is_literal(n: &str, lit: &str) -> (r: bool)
    ensures
        r == (n@ == lit@),
{
    crate::text::str_eq(n, lit)
}

/// Which modifier a normalised token names (see [`mouse_modifier_of`]).
pub fn modifier_named(n: &str) -> (r: i8)
    ensures
        r as int == mouse_modifier_of(n@),
{
    if is_literal(n, "CTRL") || is_literal(n, "CONTROL") || is_literal(n, "COMMANDORCONTROL")
        || is_literal(n, "COMMANDORCTRL") || is_literal(n, "CMDORCONTROL") || is_literal(n, "CMDORCTRL") {
        0
    } else if is_literal(n, "ALT") || is_literal(n, "OPTION") {
        1
    } else if is_literal(n, "SHIFT") {
        2
    } else if is_literal(n, "CMD") || is_literal(n, "COMMAND") || is_literal(n, "SUPER")
        || is_literal(n, "WIN") || is_literal(n, "WINDOWS") || is_literal(n, "META") {
        3
    } else {
        -1
    }
}

/// Which mouse button a normalised token names (see [`mouse_button_of`]).
pub fn button_named(n: &str) -> (r: Option<MouseShortcutButton>)
    ensures
        r == mouse_button_of(n@),
{
    if is_literal(n, "MOUSEMIDDLE") || is_literal(n, "MIDDLEMOUSE") || is_literal(n, "MOUSEBUTTONMIDDLE")
        || is_literal(n, "MIDDLEMOUSEBUTTON") || is_literal(n, "MBUTTON") {
        Some(MouseShortcutButton::Middle)
    } else if is_literal(n, "MOUSEBACK") || is_literal(n, "BACKMOUSE") || is_literal(n, "MOUSEBUTTONBACK")
        || is_literal(n, "BACKMOUSEBUTTON") || is_literal(n, "XBUTTON1") {
        Some(MouseShortcutButton::Back)
    } else if is_literal(n, "MOUSEFORWARD") || is_literal(n, "FORWARDMOUSE")
        || is_literal(n, "MOUSEBUTTONFORWARD") || is_literal(n, "FORWARDMOUSEBUTTON")
        || is_literal(n, "XBUTTON2") {
        Some(MouseShortcutButton::Forward)
    } else {
        None
    }
}

/// Sets the modifier that `token` names, if it names one.
pub fn apply_modifier_token(token: &str, modifiers: &mut MouseShortcutModifiers) -> (r: bool)
    ensures
        r == (mouse_modifier_of(normalized(token@)) >= 0),
        r ==> *final(modifiers) == with_mouse_modifier(*old(modifiers), mouse_modifier_of(normalized(token@))),
        !r ==> *final(modifiers) == *old(modifiers),
{
    let n = normalized_token(token);
    let k = modifier_named(n.as_str());
    if k == 0 {
        modifiers.ctrl = true;
    } else if k == 1 {
        modifiers.alt = true;
    } else if k == 2 {
        modifiers.shift = true;
    } else if k == 3 {
        modifiers.meta = true;
    }
    k >= 0
}

/// The mouse button that `token` names.
pub fn parse_button(token: &str) -> (r: Option<MouseShortcutButton>)
    ensures
        r == mouse_button_of(normalized(token@)),
{
    let n = normalized_token(token);
    button_named(n.as_str())
}

fn message3(a: &str, b: &str, c: &str) -> (r: String)
    ensures
        r@ == a@ + b@ + c@,
{
    let mut v = chars_of(a);
    let w = chars_of(b);
    crate::text::append_chars(&mut v, &w);
    let x = chars_of(c);
    crate::text::append_chars(&mut v, &x);
    string_from(&v)
}

/// Parses a mouse shortcut: `Ok(None)` when `value` names no mouse button.
pub fn parse(value: &str) -> (r: Result<Option<MouseShortcut>, String>)
    ensures
        match r {
            Ok(s) => parsed_mouse_shortcut(value@) == Ok::<Option<MouseShortcut>, Seq<char>>(s),
            Err(e) => parsed_mouse_shortcut(value@) == Err::<Option<MouseShortcut>, Seq<char>>(e@),
        },
{
    let v = chars_of(value);
    let tokens = split_chars(&v, '+');
    let ghost toks = views(tokens@);
    let mut modifiers = MouseShortcutModifiers { ctrl: false, alt: false, shift: false, meta: false };
    let mut button: Option<MouseShortcutButton> = None;
    let mut unsupported: Vec<Vec<char>> = Vec::new();
    let mut i: usize = 0;
    assert(toks.take(0) =~= Seq::<Seq<char>>::empty());
    assert(views(unsupported@) =~= Seq::<Seq<char>>::empty());
    while i < tokens.len()
        invariant
            i <= tokens.len(),
            toks == views(tokens@),
            toks == split_char(value@, '+'),
            mouse_read(value@, toks.take(i as int)) == Ok::<MouseProgress, Seq<char>>((modifiers, button, views(unsupported@))),
        decreases tokens.len() - i,
    {
        proof {
            assert(toks.take(i + 1).drop_last() =~= toks.take(i as int));
            assert(toks.take(i + 1).last() == tokens@[i as int]@);
            assert(mouse_read(value@, toks.take(i + 1)) == mouse_step(value@, (modifiers, button, views(unsupported@)), tokens@[i as int]@));
        }
        let t = trim_chars(&tokens[i]);
        if t.len() > 0 {
            let ts = string_from(&t);
            if !apply_modifier_token(ts.as_str(), &mut modifiers) {
                match parse_button(ts.as_str()) {
                    Some(b) => {
                        if button.is_some() {
                            proof {
                                lemma_mouse_read_err(value@, toks, i + 1);
                            }
                            return Err(message3("Mouse shortcut '", value, "' contains multiple mouse buttons"));
                        }
                        button = Some(b);
                    },
                    None => {
                        proof {
                            assert(views(unsupported@.push(t)) =~= views(unsupported@).push(t@));
                        }
                        unsupported.push(t);
                    },
                }
            }
        }
        i = i + 1;
    }
    assert(toks.take(tokens.len() as int) =~= toks);
    match button {
        None => Ok(None),
        Some(b) => {
            if unsupported.len() > 0 {
                let sep = chars_of("+");
                let joined = join_chars(&unsupported, &sep);
                let js = string_from(&joined);
                let head = message3("Mouse shortcut '", value, "' cannot include keyboard key '");
                return Err(message3(head.as_str(), js.as_str(), "'"));
            }
            Ok(Some(MouseShortcut { modifiers, button: b }))
        },
    }
}

} // verus!
