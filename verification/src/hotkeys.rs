//! The two recording-shortcut slots of the configuration.

use vstd::prelude::*;
use crate::config::default_hotkey;
use crate::text::{blank, chars_of, is_blank, lemma_trim_idempotent, owned, str_eq, strs, trim, trim_end, trim_start, trim_str};

verus! {

broadcast use vstd::string::group_string_axioms;

/// The shortcut fields of the application configuration: the legacy single
/// `hotkey`, the slot list `hotkeys` and the per-slot switches `hotkey_enabled`.
#[derive(Debug, Clone, PartialEq, Eq)]
pub struct HotkeyConfig {
    pub hotkey: String,
    pub hotkeys: Vec<String>,
    pub hotkey_enabled: Vec<bool>,
}

/// A sequence cut or padded to exactly two items.
pub open spec fn two_slots<T>(s: Seq<T>, fill: T) -> Seq<T> {
    seq![if s.len() > 0 { s[0] } else { fill }, if s.len() > 1 { s[1] } else { fill }]
}

pub open spec fn any_non_blank(items: Seq<Seq<char>>) -> bool {
    exists|k: int| 0 <= k < items.len() && !is_blank(#[trigger] items[k])
}

/// The configured shortcuts before padding: the first two slots (trimmed) when
/// any slot is set, else the legacy shortcut, else `PageUp`.
pub open spec fn base_slots(hotkeys: Seq<Seq<char>>, hotkey: Seq<char>) -> Seq<Seq<char>> {
    if any_non_blank(hotkeys) {
        hotkeys.take(if hotkeys.len() < 2 { hotkeys.len() as int } else { 2 }).map_values(|h: Seq<char>| trim(h))
    } else if !is_blank(hotkey) {
        seq![trim(hotkey)]
    } else {
        seq!["PageUp"@]
    }
}

/// The two shortcut slots.
pub open spec fn slots_spec(hotkeys: Seq<Seq<char>>, hotkey: Seq<char>) -> Seq<Seq<char>> {
    two_slots(base_slots(hotkeys, hotkey), Seq::<char>::empty())
}

/// The two enable switches: the stored ones, or, when none are stored,
/// "enabled" for every non-blank slot.
pub open spec fn enabled_spec(hotkeys: Seq<Seq<char>>, hotkey: Seq<char>, enabled: Seq<bool>) -> Seq<bool> {
    let slots = slots_spec(hotkeys, hotkey);
    if enabled.len() == 0 {
        two_slots(slots.map_values(|h: Seq<char>| !is_blank(h)), false)
    } else {
        two_slots(enabled, false)
    }
}

/// Enabled, non-empty slots, each shortcut once, in slot order.
pub open spec fn active_spec(slots: Seq<Seq<char>>, enabled: Seq<bool>) -> Seq<Seq<char>> {
    let first: Seq<Seq<char>> = if enabled[0] && slots[0].len() > 0 { seq![slots[0]] } else { seq![] };
    if enabled[1] && slots[1].len() > 0 && !first.contains(slots[1]) {
        first.push(slots[1])
    } else {
        first
    }
}

/// The shortcut fields in their two-slot form: the slots, the legacy field
/// (the first active shortcut, empty when none is active) and the switches.
/// The switches are computed from the rewritten slots, the legacy field from
/// both.
pub open spec fn normalized_hotkeys(hotkeys: Seq<Seq<char>>, hotkey: Seq<char>, enabled: Seq<bool>) -> (Seq<Seq<char>>, Seq<char>, Seq<bool>) {
    let s1 = slots_spec(hotkeys, hotkey);
    let e1 = enabled_spec(s1, hotkey, enabled);
    let a = active_spec(slots_spec(s1, hotkey), enabled_spec(s1, hotkey, e1));
    (s1, if a.len() > 0 { a[0] } else { Seq::<char>::empty() }, e1)
}

impl HotkeyConfig {
    pub open spec fn slots_of(&self) -> Seq<Seq<char>> {
        slots_spec(strs(self.hotkeys@), self.hotkey@)
    }

    pub open spec fn enabled_of(&self) -> Seq<bool> {
        enabled_spec(strs(self.hotkeys@), self.hotkey@, self.hotkey_enabled@)
    }

    pub open spec fn active_of(&self) -> Seq<Seq<char>> {
        active_spec(self.slots_of(), self.enabled_of())
    }

    /// The two shortcut slots.
    pub fn hotkey_slots(&self) -> (r: Vec<String>)
        ensures
            strs(r@) == self.slots_of(),
            r@.len() == 2,
    {
        let mut any = false;
        let mut k: usize = 0;
        while k < self.hotkeys.len()
            invariant
                k <= self.hotkeys.len(),
                any == (exists|j: int| 0 <= j < k && !is_blank(#[trigger] strs(self.hotkeys@)[j])),
            decreases self.hotkeys.len() - k,
        {
            if !blank(self.hotkeys[k].as_str()) {
                assert(!is_blank(strs(self.hotkeys@)[k as int]));
                any = true;
            }
            k = k + 1;
        }
        let ghost base = base_slots(strs(self.hotkeys@), self.hotkey@);
        let mut slots: Vec<String> = Vec::new();
        if any {
            let mut i: usize = 0;
            while i < self.hotkeys.len() && i < 2
                invariant
                    i <= self.hotkeys.len(),
                    i <= 2,
                    any_non_blank(strs(self.hotkeys@)),
                    base == base_slots(strs(self.hotkeys@), self.hotkey@),
                    slots@.len() == i,
                    forall|j: int| 0 <= j < i ==> (#[trigger] slots@[j])@ == base[j],
                decreases 2 - i,
            {
                slots.push(trim_str(self.hotkeys[i].as_str()));
                i = i + 1;
            }
        } else if !blank(self.hotkey.as_str()) {
            slots.push(trim_str(self.hotkey.as_str()));
        } else {
            slots.push(default_hotkey());
        }
        while slots.len() < 2
            invariant
                slots@.len() <= 2,
                slots@.len() >= base.len(),
                forall|j: int| 0 <= j < slots@.len() ==> (#[trigger] slots@[j])@ == (if j < base.len() { base[j] } else { Seq::<char>::empty() }),
                base.len() <= 2,
            decreases 2 - slots.len(),
        {
            let e = String::new();
            assert(e@ == Seq::<char>::empty());
            slots.push(e);
        }
        assert(strs(slots@) =~= two_slots(base, Seq::<char>::empty()));
        slots
    }

    /// The two enable switches.
    pub fn hotkey_enabled_slots(&self) -> (r: Vec<bool>)
        ensures
            r@ == self.enabled_of(),
    {
        let slots = self.hotkey_slots();
        let mut enabled: Vec<bool> = Vec::new();
        let ghost base: Seq<bool> = if self.hotkey_enabled@.len() == 0 {
            self.slots_of().map_values(|h: Seq<char>| !is_blank(h))
        } else {
            self.hotkey_enabled@
        };
        if self.hotkey_enabled.len() == 0 {
            enabled.push(!blank(slots[0].as_str()));
            enabled.push(!blank(slots[1].as_str()));
        } else {
            enabled.push(self.hotkey_enabled[0]);
            if self.hotkey_enabled.len() > 1 {
                enabled.push(self.hotkey_enabled[1]);
            } else {
                enabled.push(false);
            }
        }
        assert(enabled@ =~= two_slots(base, false));
        enabled
    }

    /// The enabled shortcuts, each once.
    pub fn active_hotkeys(&self) -> (r: Vec<String>)
        ensures
            strs(r@) == self.active_of(),
    {
        let slots = self.hotkey_slots();
        let enabled = self.hotkey_enabled_slots();
        let mut active: Vec<String> = Vec::new();
        if enabled[0] && chars_of(slots[0].as_str()).len() != 0 {
            active.push(owned(slots[0].as_str()));
        }
        assert(strs(active@) =~= (if enabled@[0] && strs(slots@)[0].len() > 0 { seq![strs(slots@)[0]] } else { Seq::<Seq<char>>::empty() }));
        let dup = active.len() > 0 && str_eq(active[0].as_str(), slots[1].as_str());
        assert(dup == strs(active@).contains(strs(slots@)[1])) by {
            if strs(active@).contains(strs(slots@)[1]) {
                let k = choose|k: int| 0 <= k < strs(active@).len() && strs(active@)[k] == strs(slots@)[1];
                assert(k == 0);
            }
        }
        if enabled[1] && chars_of(slots[1].as_str()).len() != 0 && !dup {
            let s = owned(slots[1].as_str());
            let ghost sv = s@;
            active.push(s);
            assert(strs(active@) =~= strs(active@.drop_last()).push(sv));
        }
        active
    }

    /// Rewrites the fields into their two-slot form; the legacy field takes the
    /// first active shortcut (empty when none is active).  The switches are
    /// computed from the rewritten slots, the legacy field from both.
    pub fn normalize_hotkeys(&mut self)
        ensures
            (strs(final(self).hotkeys@), final(self).hotkey@, final(self).hotkey_enabled@)
                == normalized_hotkeys(strs(old(self).hotkeys@), old(self).hotkey@, old(self).hotkey_enabled@),
    {
        let slots = self.hotkey_slots();
        self.hotkeys = slots;
        let enabled = self.hotkey_enabled_slots();
        self.hotkey_enabled = enabled;
        let active = self.active_hotkeys();
        if active.len() > 0 {
            self.hotkey = owned(active[0].as_str());
        } else {
            self.hotkey = String::new();
        }
    }
}

/// Normalizing the shortcut fields twice gives what normalizing once gave,
/// as long as one of the two slots is set.  (When the first two stored slots
/// are blank and a later one is not, the first pass leaves both slots blank
/// and the second puts the default shortcut in the first.)
pub proof fn law_normalize_hotkeys_idempotent(hotkeys: Seq<Seq<char>>, hotkey: Seq<char>, enabled: Seq<bool>)
    requires
        any_non_blank(normalized_hotkeys(hotkeys, hotkey, enabled).0),
    ensures
        ({
            let n = normalized_hotkeys(hotkeys, hotkey, enabled);
            normalized_hotkeys(n.0, n.1, n.2) == n
        }),
{
    let n = normalized_hotkeys(hotkeys, hotkey, enabled);
    let s1 = n.0;
    lemma_slots_trimmed(hotkeys, hotkey);
    lemma_slots_stable(s1, hotkey);
    lemma_slots_stable(s1, n.1);
    let e1 = n.2;
    assert(e1.len() == 2);
    assert(two_slots(e1, false) =~= e1);
    assert(enabled_spec(s1, hotkey, e1) == e1);
    assert(enabled_spec(s1, n.1, e1) == e1);
}

/// Two slots with a set one are kept as they are.
proof fn lemma_slots_stable(s1: Seq<Seq<char>>, hotkey: Seq<char>)
    requires
        s1.len() == 2,
        trim(s1[0]) == s1[0],
        trim(s1[1]) == s1[1],
        any_non_blank(s1),
    ensures
        slots_spec(s1, hotkey) == s1,
{
    let b = base_slots(s1, hotkey);
    assert(b =~= s1);
    assert(two_slots(b, Seq::<char>::empty()) =~= s1);
}

/// The slots are trimmed.
proof fn lemma_slots_trimmed(hotkeys: Seq<Seq<char>>, hotkey: Seq<char>)
    ensures
        slots_spec(hotkeys, hotkey).len() == 2,
        trim(slots_spec(hotkeys, hotkey)[0]) == slots_spec(hotkeys, hotkey)[0],
        trim(slots_spec(hotkeys, hotkey)[1]) == slots_spec(hotkeys, hotkey)[1],
{
    if any_non_blank(hotkeys) {
        if hotkeys.len() > 0 {
            lemma_trim_idempotent(hotkeys[0]);
        }
        if hotkeys.len() > 1 {
            lemma_trim_idempotent(hotkeys[1]);
        }
    } else if !is_blank(hotkey) {
        lemma_trim_idempotent(hotkey);
    } else {
        reveal_strlit("PageUp");
        assert(trim_start("PageUp"@) == "PageUp"@);
        assert(trim_end("PageUp"@) == "PageUp"@);
    }
    assert(trim_start(Seq::<char>::empty()) == Seq::<char>::empty());
    assert(trim_end(Seq::<char>::empty()) == Seq::<char>::empty());
}

} // verus!
