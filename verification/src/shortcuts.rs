//! Checking the configured recording shortcuts before they are registered.

use vstd::prelude::*;
use crate::hotkeys::HotkeyConfig;
use crate::mouse_shortcuts::{parse, parsed_mouse_shortcut, MouseShortcut};
use crate::text::{chars_of, owned, strs, trim, trim_str};

verus! {

broadcast use vstd::string::group_string_axioms;

/// The shortcuts to register, split by kind.
#[derive(Debug, Clone, PartialEq, Eq)]
pub struct ValidatedHotkeys {
    pub keyboard: Vec<String>,
    pub mouse: Vec<MouseShortcut>,
}

/// The enabled slots, trimmed, that are not empty (duplicates kept).
pub open spec fn active_config_spec(slots: Seq<Seq<char>>, enabled: Seq<bool>) -> Seq<Seq<char>> {
    let first: Seq<Seq<char>> = if enabled[0] && trim(slots[0]).len() > 0 { seq![trim(slots[0])] } else { seq![] };
    if enabled[1] && trim(slots[1]).len() > 0 {
        first.push(trim(slots[1]))
    } else {
        first
    }
}

/// The configured shortcuts that are switched on.
pub fn active_config_hotkeys(config: &HotkeyConfig) -> (r: Vec<String>)
    ensures
        strs(r@) == active_config_spec(config.slots_of(), config.enabled_of()),
{
    let slots = config.hotkey_slots();
    let enabled = config.hotkey_enabled_slots();
    let mut active: Vec<String> = Vec::new();
    let a = trim_str(slots[0].as_str());
    if enabled[0] && chars_of(a.as_str()).len() != 0 {
        active.push(a);
    }
    assert(strs(active@) =~= (if enabled@[0] && trim(strs(slots@)[0]).len() > 0 { seq![trim(strs(slots@)[0])] } else { Seq::<Seq<char>>::empty() }));
    let b = trim_str(slots[1].as_str());
    if enabled[1] && chars_of(b.as_str()).len() != 0 {
        let ghost bv = b@;
        let ghost before = strs(active@);
        active.push(b);
        assert(strs(active@) =~= before.push(bv));
    }
    active
}

pub open spec fn duplicate_message(hotkey: Seq<char>) -> Seq<char> {
    "Duplicate shortcut '"@ + hotkey + "'"@
}

/// The mouse shortcuts among `hotkeys`, in order; an unreadable one or a
/// repeated one stops the check.
pub open spec fn collect_mouse(hotkeys: Seq<Seq<char>>) -> Result<Seq<MouseShortcut>, Seq<char>>
    decreases hotkeys.len(),
{
    if hotkeys.len() == 0 {
        Ok(Seq::<MouseShortcut>::empty())
    } else {
        match collect_mouse(hotkeys.drop_last()) {
            Err(e) => Err(e),
            Ok(found) => match parsed_mouse_shortcut(hotkeys.last()) {
                Err(e) => Err(e),
                Ok(None) => Ok(found),
                Ok(Some(s)) => if found.contains(s) {
                    Err(duplicate_message(hotkeys.last()))
                } else {
                    Ok(found.push(s))
                },
            },
        }
    }
}

proof fn lemma_collect_mouse_err(hotkeys: Seq<Seq<char>>, k: int)
    requires
        0 <= k <= hotkeys.len(),
        collect_mouse(hotkeys.take(k)) is Err,
    ensures
        collect_mouse(hotkeys) == collect_mouse(hotkeys.take(k)),
    decreases hotkeys.len() - k,
{
    if k < hotkeys.len() {
        assert(hotkeys.drop_last().take(k) =~= hotkeys.take(k));
        lemma_collect_mouse_err(hotkeys.drop_last(), k);
    } else {
        assert(hotkeys.take(k) =~= hotkeys);
    }
}

fn contains_mouse(found: &Vec<MouseShortcut>, s: MouseShortcut) -> (r: bool)
    ensures
        r == found@.contains(s),
{
    let mut i: usize = 0;
    while i < found.len()
        invariant
            i <= found.len(),
            forall|k: int| 0 <= k < i ==> found@[k] != s,
        decreases found.len() - i,
    {
        if found[i] == s {
            assert(found@[i as int] == s);
            return true;
        }
        i = i + 1;
    }
    false
}

/// The mouse shortcuts among the switched-on shortcuts; an unreadable or
/// repeated one is refused.
pub fn validate_mouse_hotkeys(config: &HotkeyConfig) -> (r: Result<Vec<MouseShortcut>, String>)
    ensures
        match r {
            Ok(v) => collect_mouse(active_config_spec(config.slots_of(), config.enabled_of())) == Ok::<Seq<MouseShortcut>, Seq<char>>(v@),
            Err(e) => collect_mouse(active_config_spec(config.slots_of(), config.enabled_of())) == Err::<Seq<MouseShortcut>, Seq<char>>(e@),
        },
{
    let hotkeys = active_config_hotkeys(config);
    let ghost hs = strs(hotkeys@);
    let mut found: Vec<MouseShortcut> = Vec::new();
    let mut i: usize = 0;
    assert(hs.take(0) =~= Seq::<Seq<char>>::empty());
    while i < hotkeys.len()
        invariant
            i <= hotkeys.len(),
            hs == strs(hotkeys@),
            hs == active_config_spec(config.slots_of(), config.enabled_of()),
            collect_mouse(hs.take(i as int)) == Ok::<Seq<MouseShortcut>, Seq<char>>(found@),
        decreases hotkeys.len() - i,
    {
        proof {
            assert(hs.take(i + 1).drop_last() =~= hs.take(i as int));
            assert(hs.take(i + 1).last() == hotkeys@[i as int]@);
        }
        match parse(hotkeys[i].as_str()) {
            Err(e) => {
                proof {
                    lemma_collect_mouse_err(hs, i + 1);
                }
                return Err(e);
            },
            Ok(None) => {},
            Ok(Some(s)) => {
                if contains_mouse(&found, s) {
                    proof {
                        lemma_collect_mouse_err(hs, i + 1);
                    }
                    return Err(duplicate(hotkeys[i].as_str()));
                }
                found.push(s);
            },
        }
        i = i + 1;
    }
    assert(hs.take(hotkeys.len() as int) =~= hs);
    Ok(found)
}

fn duplicate(hotkey: &str) -> (r: String)
    ensures
        r@ == duplicate_message(hotkey@),
{
    let mut v = chars_of("Duplicate shortcut '");
    let h = chars_of(hotkey);
    crate::text::append_chars(&mut v, &h);
    let q = chars_of("'");
    crate::text::append_chars(&mut v, &q);
    crate::text::string_from(&v)
}

/// What the keyboard-shortcut parser said of each shortcut: its identifier,
/// or the reason it could not be read.
pub open spec fn id_views(ids: Seq<Result<u32, String>>) -> Seq<Result<u32, Seq<char>>> {
    ids.map_values(|r: Result<u32, String>| match r {
        Ok(x) => Ok::<u32, Seq<char>>(x),
        Err(e) => Err::<u32, Seq<char>>(e@),
    })
}

pub open spec fn invalid_message(hotkey: Seq<char>, reason: Seq<char>) -> Seq<char> {
    "Invalid shortcut '"@ + hotkey + "': "@ + reason
}

/// Keyboard shortcuts, mouse shortcuts and the keyboard identifiers seen.
pub type HotkeyProgress = (Seq<Seq<char>>, Seq<MouseShortcut>, Seq<u32>);

/// Sorting `hotkeys` into mouse and keyboard shortcuts; `ids[i]` is what the
/// keyboard parser made of `hotkeys[i]`, consulted only when it is no mouse
/// shortcut.  The first unreadable or repeated shortcut stops the check.
pub open spec fn collect_hotkeys(hotkeys: Seq<Seq<char>>, ids: Seq<Result<u32, Seq<char>>>) -> Result<HotkeyProgress, Seq<char>>
    decreases hotkeys.len(),
{
    if hotkeys.len() == 0 {
        Ok((Seq::<Seq<char>>::empty(), Seq::<MouseShortcut>::empty(), Seq::<u32>::empty()))
    } else {
        let h = hotkeys.last();
        match collect_hotkeys(hotkeys.drop_last(), ids) {
            Err(e) => Err(e),
            Ok(p) => match parsed_mouse_shortcut(h) {
                Err(e) => Err(e),
                Ok(Some(s)) => if p.1.contains(s) {
                    Err(duplicate_message(h))
                } else {
                    Ok((p.0, p.1.push(s), p.2))
                },
                Ok(None) => match ids[hotkeys.len() - 1] {
                    Err(reason) => Err(invalid_message(h, reason)),
                    Ok(id) => if p.2.contains(id) {
                        Err(duplicate_message(h))
                    } else {
                        Ok((p.0.push(h), p.1, p.2.push(id)))
                    },
                },
            },
        }
    }
}

proof fn lemma_collect_hotkeys_err(hotkeys: Seq<Seq<char>>, ids: Seq<Result<u32, Seq<char>>>, k: int)
    requires
        0 <= k <= hotkeys.len(),
        collect_hotkeys(hotkeys.take(k), ids) is Err,
    ensures
        collect_hotkeys(hotkeys, ids) == collect_hotkeys(hotkeys.take(k), ids),
    decreases hotkeys.len() - k,
{
    if k < hotkeys.len() {
        assert(hotkeys.drop_last().take(k) =~= hotkeys.take(k));
        lemma_collect_hotkeys_err(hotkeys.drop_last(), ids, k);
    } else {
        assert(hotkeys.take(k) =~= hotkeys);
    }
}

fn contains_id(ids: &Vec<u32>, id: u32) -> (r: bool)
    ensures
        r == ids@.contains(id),
{
    let mut i: usize = 0;
    while i < ids.len()
        invariant
            i <= ids.len(),
            forall|k: int| 0 <= k < i ==> ids@[k] != id,
        decreases ids.len() - i,
    {
        if ids[i] == id {
            assert(ids@[i as int] == id);
            return true;
        }
        i = i + 1;
    }
    false
}

fn invalid(hotkey: &str, reason: &str) -> (r: String)
    ensures
        r@ == invalid_message(hotkey@, reason@),
{
    let mut v = chars_of("Invalid shortcut '");
    let h = chars_of(hotkey);
    crate::text::append_chars(&mut v, &h);
    let m = chars_of("': ");
    crate::text::append_chars(&mut v, &m);
    let e = chars_of(reason);
    crate::text::append_chars(&mut v, &e);
    crate::text::string_from(&v)
}

/// Checks the switched-on shortcuts of `config`.  `keyboard_ids[i]` is what
/// the keyboard-shortcut parser made of the `i`-th of
/// [`active_config_hotkeys`]: its identifier, or its error text.
pub fn validate_hotkeys(config: &HotkeyConfig, keyboard_ids: &Vec<Result<u32, String>>) -> (r: Result<ValidatedHotkeys, String>)
    requires
        keyboard_ids@.len() == active_config_spec(config.slots_of(), config.enabled_of()).len(),
    ensures
        match r {
            Ok(v) => collect_hotkeys(active_config_spec(config.slots_of(), config.enabled_of()), id_views(keyboard_ids@)) matches Ok(p)
                && strs(v.keyboard@) == p.0 && v.mouse@ == p.1,
            Err(e) => collect_hotkeys(active_config_spec(config.slots_of(), config.enabled_of()), id_views(keyboard_ids@)) == Err::<HotkeyProgress, Seq<char>>(e@),
        },
{
    let hotkeys = active_config_hotkeys(config);
    let ghost hs = strs(hotkeys@);
    let ghost ids = id_views(keyboard_ids@);
    let mut keyboard: Vec<String> = Vec::new();
    let mut mouse: Vec<MouseShortcut> = Vec::new();
    let mut seen: Vec<u32> = Vec::new();
    let mut i: usize = 0;
    assert(hs.take(0) =~= Seq::<Seq<char>>::empty());
    assert(strs(keyboard@) =~= Seq::<Seq<char>>::empty());
    while i < hotkeys.len()
        invariant
            i <= hotkeys.len(),
            hs == strs(hotkeys@),
            hs == active_config_spec(config.slots_of(), config.enabled_of()),
            ids == id_views(keyboard_ids@),
            keyboard_ids@.len() == hotkeys@.len(),
            collect_hotkeys(hs.take(i as int), ids) == Ok::<HotkeyProgress, Seq<char>>((strs(keyboard@), mouse@, seen@)),
        decreases hotkeys.len() - i,
    {
        proof {
            assert(hs.take(i + 1).drop_last() =~= hs.take(i as int));
            assert(hs.take(i + 1).last() == hotkeys@[i as int]@);
            assert(hs.take(i + 1).len() - 1 == i);
        }
        match parse(hotkeys[i].as_str()) {
            Err(e) => {
                proof {
                    lemma_collect_hotkeys_err(hs, ids, i + 1);
                }
                return Err(e);
            },
            Ok(Some(s)) => {
                if contains_mouse(&mouse, s) {
                    proof {
                        lemma_collect_hotkeys_err(hs, ids, i + 1);
                    }
                    return Err(duplicate(hotkeys[i].as_str()));
                }
                mouse.push(s);
            },
            Ok(None) => {
                match &keyboard_ids[i] {
                    Err(reason) => {
                        proof {
                            assert(ids[i as int] == Err::<u32, Seq<char>>(reason@));
                            lemma_collect_hotkeys_err(hs, ids, i + 1);
                        }
                        return Err(invalid(hotkeys[i].as_str(), reason.as_str()));
                    },
                    Ok(id) => {
                        let id = *id;
                        assert(ids[i as int] == Ok::<u32, Seq<char>>(id));
                        if contains_id(&seen, id) {
                            proof {
                                lemma_collect_hotkeys_err(hs, ids, i + 1);
                            }
                            return Err(duplicate(hotkeys[i].as_str()));
                        }
                        seen.push(id);
                        let h = owned(hotkeys[i].as_str());
                        let ghost hv = h@;
                        let ghost before = strs(keyboard@);
                        keyboard.push(h);
                        assert(strs(keyboard@) =~= before.push(hv));
                    },
                }
            },
        }
        i = i + 1;
    }
    assert(hs.take(hotkeys.len() as int) =~= hs);
    Ok(ValidatedHotkeys { keyboard, mouse })
}

} // verus!
