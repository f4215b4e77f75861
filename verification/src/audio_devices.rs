//! Ranking of the available input devices: blacklist first, then the
//! priority list, then the system default, then everything else.

use vstd::prelude::*;
use crate::config::{ref_matches, ref_views, some_ref_matches, AudioConfig, AudioInputDeviceRef};
use crate::text::{
    append_chars, chars_of, copy_string, decimal, eq_ignore_ascii_case, push_decimal, str_eq,
    str_eq_ignore_ascii_case, string_from,
};

verus! {

broadcast use vstd::string::group_string_axioms;

/// An input device as the platform lists it.
#[derive(Debug, Clone, PartialEq, Eq)]
pub struct AudioInputDevice {
    pub id: String,
    pub name: String,
    pub is_default: bool,
    pub platform: String,
}

/// A device as a value: id, name, default flag, platform.
pub type DeviceView = (Seq<char>, Seq<char>, bool, Seq<char>);

pub open spec fn dview(d: AudioInputDevice) -> DeviceView {
    (d.id@, d.name@, d.is_default, d.platform@)
}

pub open spec fn dviews(v: Seq<AudioInputDevice>) -> Seq<DeviceView> {
    v.map_values(|d: AudioInputDevice| dview(d))
}

pub open spec fn ids(v: Seq<DeviceView>) -> Seq<Seq<char>> {
    v.map_values(|d: DeviceView| d.0)
}

/// Names of the available devices that a blacklist entry designates.
pub open spec fn blocked_names(bl: Seq<(Seq<char>, Seq<char>)>, avail: Seq<DeviceView>) -> Seq<Seq<char>>
    decreases avail.len(),
{
    if avail.len() == 0 {
        seq![]
    } else {
        let r = blocked_names(bl, avail.drop_last());
        if some_ref_matches(bl, avail.last().0, avail.last().1) {
            r.push(avail.last().1)
        } else {
            r
        }
    }
}

/// Whether `name` equals one of `names`, ignoring ASCII case.
pub open spec fn name_blocked(names: Seq<Seq<char>>, name: Seq<char>) -> bool {
    exists|k: int| 0 <= k < names.len() && eq_ignore_ascii_case(#[trigger] names[k], name)
}

/// The devices, in order, whose name is not a blocked name.
pub open spec fn eligible_from(names: Seq<Seq<char>>, avail: Seq<DeviceView>) -> Seq<DeviceView>
    decreases avail.len(),
{
    if avail.len() == 0 {
        seq![]
    } else {
        let r = eligible_from(names, avail.drop_last());
        if name_blocked(names, avail.last().1) {
            r
        } else {
            r.push(avail.last())
        }
    }
}

/// The devices that may be used: a device is out when the blacklist
/// designates it, or any device with the same name (ignoring ASCII case).
pub open spec fn eligible_spec(bl: Seq<(Seq<char>, Seq<char>)>, avail: Seq<DeviceView>) -> Seq<DeviceView> {
    eligible_from(blocked_names(bl, avail), avail)
}

/// The first device of `elig` not yet ranked whose id (or, when `by_id` is
/// false, whose name ignoring ASCII case) is `key`.
pub open spec fn find_first_by(elig: Seq<DeviceView>, ranked: Seq<Seq<char>>, key: Seq<char>, by_id: bool) -> Option<DeviceView>
    decreases elig.len(),
{
    if elig.len() == 0 {
        None
    } else if (if by_id { elig[0].0 == key } else { eq_ignore_ascii_case(key, elig[0].1) }) && !ranked.contains(elig[0].0) {
        Some(elig[0])
    } else {
        find_first_by(elig.drop_first(), ranked, key, by_id)
    }
}

/// The device a priority entry picks: by id when it has one, else (or when
/// the id is not found) by name.
pub open spec fn pick(elig: Seq<DeviceView>, ranked: Seq<Seq<char>>, pref: (Seq<char>, Seq<char>)) -> Option<DeviceView> {
    let by_id = if pref.0.len() > 0 { find_first_by(elig, ranked, pref.0, true) } else { None };
    match by_id {
        Some(d) => Some(d),
        None => if pref.1.len() > 0 { find_first_by(elig, ranked, pref.1, false) } else { None },
    }
}

/// The devices that the priority entries pick, in priority order.
pub open spec fn rank_priority(elig: Seq<DeviceView>, prefs: Seq<(Seq<char>, Seq<char>)>) -> Seq<DeviceView>
    decreases prefs.len(),
{
    if prefs.len() == 0 {
        seq![]
    } else {
        let r = rank_priority(elig, prefs.drop_last());
        match pick(elig, ids(r), prefs.last()) {
            Some(d) => r.push(d),
            None => r,
        }
    }
}

/// `ranked` followed by the devices of `items` (only default ones when
/// `only_default`) whose id is not ranked yet.
pub open spec fn add_missing(ranked: Seq<DeviceView>, items: Seq<DeviceView>, only_default: bool) -> Seq<DeviceView>
    decreases items.len(),
{
    if items.len() == 0 {
        ranked
    } else {
        let r = add_missing(ranked, items.drop_last(), only_default);
        let d = items.last();
        if (!only_default || d.2) && !ids(r).contains(d.0) {
            r.push(d)
        } else {
            r
        }
    }
}

/// The ranking: priority picks, then the default device, then the rest.
pub open spec fn ranked_spec(bl: Seq<(Seq<char>, Seq<char>)>, prefs: Seq<(Seq<char>, Seq<char>)>, avail: Seq<DeviceView>) -> Seq<DeviceView> {
    let elig = eligible_spec(bl, avail);
    add_missing(add_missing(rank_priority(elig, prefs), elig, true), elig, false)
}

fn copy_device(d: &AudioInputDevice) -> (r: AudioInputDevice)
    ensures
        dview(r) == dview(*d),
{
    AudioInputDevice {
        id: copy_string(&d.id),
        name: copy_string(&d.name),
        is_default: d.is_default,
        platform: copy_string(&d.platform),
    }
}

fn blacklisted(blacklist: &Vec<AudioInputDeviceRef>, d: &AudioInputDevice) -> (r: bool)
    ensures
        r == some_ref_matches(ref_views(blacklist@), d.id@, d.name@),
{
    let ghost v = ref_views(blacklist@);
    let mut k: usize = 0;
    while k < blacklist.len()
        invariant
            k <= blacklist.len(),
            v == ref_views(blacklist@),
            forall|j: int| 0 <= j < k ==> !ref_matches(#[trigger] v[j].0, v[j].1, d.id@, d.name@),
        decreases blacklist.len() - k,
    {
        if blacklist[k].matches_device(d.id.as_str(), d.name.as_str()) {
            assert(v[k as int] == (blacklist@[k as int].id@, blacklist@[k as int].name@));
            assert(ref_matches(v[k as int].0, v[k as int].1, d.id@, d.name@));
            return true;
        }
        k = k + 1;
    }
    false
}

fn name_listed(names: &Vec<String>, name: &str) -> (r: bool)
    ensures
        r == name_blocked(crate::text::strs(names@), name@),
{
    let ghost ns = crate::text::strs(names@);
    let mut k: usize = 0;
    while k < names.len()
        invariant
            k <= names.len(),
            ns == crate::text::strs(names@),
            forall|j: int| 0 <= j < k ==> !eq_ignore_ascii_case(#[trigger] ns[j], name@),
        decreases names.len() - k,
    {
        if str_eq_ignore_ascii_case(names[k].as_str(), name) {
            assert(eq_ignore_ascii_case(ns[k as int], name@));
            return true;
        }
        k = k + 1;
    }
    false
}

fn id_ranked(ranked: &Vec<AudioInputDevice>, id: &str) -> (r: bool)
    ensures
        r == ids(dviews(ranked@)).contains(id@),
{
    let ghost rs = ids(dviews(ranked@));
    let mut k: usize = 0;
    while k < ranked.len()
        invariant
            k <= ranked.len(),
            rs == ids(dviews(ranked@)),
            forall|j: int| 0 <= j < k ==> rs[j] != id@,
        decreases ranked.len() - k,
    {
        if str_eq(ranked[k].id.as_str(), id) {
            assert(rs[k as int] == id@);
            return true;
        }
        k = k + 1;
    }
    false
}

fn find_first_exec(elig: &Vec<AudioInputDevice>, ranked: &Vec<AudioInputDevice>, key: &str, by_id: bool) -> (r: Option<usize>)
    ensures
        match r {
            Some(i) => i < elig@.len() && find_first_by(dviews(elig@), ids(dviews(ranked@)), key@, by_id) == Some(dview(elig@[i as int])),
            None => find_first_by(dviews(elig@), ids(dviews(ranked@)), key@, by_id) is None,
        },
{
    let ghost e = dviews(elig@);
    let ghost rs = ids(dviews(ranked@));
    let mut i: usize = 0;
    assert(e.skip(0) =~= e);
    while i < elig.len()
        invariant
            i <= elig.len(),
            e == dviews(elig@),
            rs == ids(dviews(ranked@)),
            find_first_by(e, rs, key@, by_id) == find_first_by(e.skip(i as int), rs, key@, by_id),
        decreases elig.len() - i,
    {
        let hit = if by_id { str_eq(elig[i].id.as_str(), key) } else { str_eq_ignore_ascii_case(key, elig[i].name.as_str()) };
        let ghost rest = e.skip(i as int);
        assert(rest[0] == dview(elig@[i as int]));
        assert(rest.drop_first() =~= e.skip(i + 1));
        if hit && !id_ranked(ranked, elig[i].id.as_str()) {
            return Some(i);
        }
        i = i + 1;
    }
    None
}

proof fn lemma_blocked_names_push(bl: Seq<(Seq<char>, Seq<char>)>, avail: Seq<DeviceView>, i: int)
    requires
        0 <= i < avail.len(),
    ensures
        blocked_names(bl, avail.take(i + 1)) == (if some_ref_matches(bl, avail[i].0, avail[i].1) {
            blocked_names(bl, avail.take(i)).push(avail[i].1)
        } else {
            blocked_names(bl, avail.take(i))
        }),
{
    assert(avail.take(i + 1).drop_last() =~= avail.take(i));
}

/// Orders the available devices for opening.  Devices that the blacklist
/// designates, and all devices sharing a name with one of them, are left
/// out; the remaining devices come in priority order, then the default
/// device, then the others in listing order, each id at most once.
pub fn rank_input_devices(config: &AudioConfig, available: &Vec<AudioInputDevice>) -> (ranked: Vec<AudioInputDevice>)
    ensures
        dviews(ranked@) == ranked_spec(ref_views(config.input_device_blacklist@), ref_views(config.input_device_priority@), dviews(available@)),
{
    let ghost bl = ref_views(config.input_device_blacklist@);
    let ghost prefs = ref_views(config.input_device_priority@);
    let ghost avail = dviews(available@);

    // Names of blacklisted devices.
    let mut names: Vec<String> = Vec::new();
    let mut i: usize = 0;
    assert(avail.take(0) =~= Seq::<DeviceView>::empty());
    while i < available.len()
        invariant
            i <= available.len(),
            bl == ref_views(config.input_device_blacklist@),
            avail == dviews(available@),
            crate::text::strs(names@) == blocked_names(bl, avail.take(i as int)),
        decreases available.len() - i,
    {
        proof {
            lemma_blocked_names_push(bl, avail, i as int);
        }
        if blacklisted(&config.input_device_blacklist, &available[i]) {
            let n = copy_string(&available[i].name);
            let ghost before = crate::text::strs(names@);
            names.push(n);
            assert(crate::text::strs(names@) =~= before.push(avail[i as int].1));
        }
        i = i + 1;
    }
    assert(avail.take(available.len() as int) =~= avail);
    let ghost names_v = blocked_names(bl, avail);

    // Devices whose name is not blocked.
    let mut eligible: Vec<AudioInputDevice> = Vec::new();
    i = 0;
    while i < available.len()
        invariant
            i <= available.len(),
            avail == dviews(available@),
            crate::text::strs(names@) == names_v,
            dviews(eligible@) == eligible_from(names_v, avail.take(i as int)),
        decreases available.len() - i,
    {
        proof {
            assert(avail.take(i + 1).drop_last() =~= avail.take(i as int));
        }
        if !name_listed(&names, available[i].name.as_str()) {
            let d = copy_device(&available[i]);
            let ghost before = dviews(eligible@);
            eligible.push(d);
            assert(dviews(eligible@) =~= before.push(avail[i as int]));
        }
        i = i + 1;
    }
    let ghost elig = eligible_spec(bl, avail);
    assert(dviews(eligible@) == elig);

    // Priority entries.
    let mut ranked: Vec<AudioInputDevice> = Vec::new();
    let mut p: usize = 0;
    assert(prefs.take(0) =~= Seq::<(Seq<char>, Seq<char>)>::empty());
    assert(dviews(ranked@) =~= Seq::<DeviceView>::empty());
    while p < config.input_device_priority.len()
        invariant
            p <= config.input_device_priority.len(),
            prefs == ref_views(config.input_device_priority@),
            dviews(eligible@) == elig,
            dviews(ranked@) == rank_priority(elig, prefs.take(p as int)),
        decreases config.input_device_priority.len() - p,
    {
        let preferred = &config.input_device_priority[p];
        proof {
            assert(prefs.take(p + 1).drop_last() =~= prefs.take(p as int));
            assert(prefs.take(p + 1).last() == (preferred.id@, preferred.name@));
        }
        let mut found: Option<usize> = None;
        if chars_of(preferred.id.as_str()).len() != 0 {
            found = find_first_exec(&eligible, &ranked, preferred.id.as_str(), true);
        }
        if found.is_none() && chars_of(preferred.name.as_str()).len() != 0 {
            found = find_first_exec(&eligible, &ranked, preferred.name.as_str(), false);
        }
        match found {
            Some(k) => {
                let d = copy_device(&eligible[k]);
                let ghost before = dviews(ranked@);
                ranked.push(d);
                assert(dviews(ranked@) =~= before.push(dview(eligible@[k as int])));
            },
            None => {},
        }
        p = p + 1;
    }
    assert(prefs.take(config.input_device_priority.len() as int) =~= prefs);
    let ghost after_priority = rank_priority(elig, prefs);

    // The default device, then every other device.
    let mut pass: usize = 0;
    while pass < 2
        invariant
            pass <= 2,
            dviews(eligible@) == elig,
            pass == 0 ==> dviews(ranked@) == after_priority,
            pass == 1 ==> dviews(ranked@) == add_missing(after_priority, elig, true),
            pass == 2 ==> dviews(ranked@) == add_missing(add_missing(after_priority, elig, true), elig, false),
        decreases 2 - pass,
    {
        let only_default = pass == 0;
        let ghost start = dviews(ranked@);
        let mut j: usize = 0;
        assert(elig.take(0) =~= Seq::<DeviceView>::empty());
        while j < eligible.len()
            invariant
                j <= eligible.len(),
                dviews(eligible@) == elig,
                dviews(ranked@) == add_missing(start, elig.take(j as int), only_default),
            decreases eligible.len() - j,
        {
            proof {
                assert(elig.take(j + 1).drop_last() =~= elig.take(j as int));
                assert(elig.take(j + 1).last() == dview(eligible@[j as int]));
            }
            if (!only_default || eligible[j].is_default) && !id_ranked(&ranked, eligible[j].id.as_str()) {
                let d = copy_device(&eligible[j]);
                let ghost before = dviews(ranked@);
                ranked.push(d);
                assert(dviews(ranked@) =~= before.push(dview(eligible@[j as int])));
            }
            j = j + 1;
        }
        assert(elig.take(eligible.len() as int) =~= elig);
        pass = pass + 1;
    }
    ranked
}


pub open spec fn distinct_ids(r: Seq<DeviceView>) -> bool {
    forall|i: int, j: int| 0 <= i < j < r.len() ==> (#[trigger] r[i]).0 != (#[trigger] r[j]).0
}

pub open spec fn within(r: Seq<DeviceView>, pool: Seq<DeviceView>) -> bool {
    forall|k: int| 0 <= k < r.len() ==> pool.contains(#[trigger] r[k])
}

proof fn lemma_find_first_by(elig: Seq<DeviceView>, rs: Seq<Seq<char>>, key: Seq<char>, by_id: bool)
    ensures
        find_first_by(elig, rs, key, by_id) matches Some(d) ==> elig.contains(d) && !rs.contains(d.0),
    decreases elig.len(),
{
    if elig.len() > 0 {
        lemma_find_first_by(elig.drop_first(), rs, key, by_id);
        if let Some(d) = find_first_by(elig.drop_first(), rs, key, by_id) {
            if elig.drop_first().contains(d) {
                let k = choose|k: int| 0 <= k < elig.drop_first().len() && elig.drop_first()[k] == d;
                assert(elig[k + 1] == d);
            }
        }
        assert(elig[0] == elig[0]);
    }
}

proof fn lemma_push_keeps(r: Seq<DeviceView>, d: DeviceView, pool: Seq<DeviceView>)
    requires
        within(r, pool),
        distinct_ids(r),
        pool.contains(d),
        !ids(r).contains(d.0),
    ensures
        within(r.push(d), pool),
        distinct_ids(r.push(d)),
{
    let r2 = r.push(d);
    assert forall|i: int, j: int| 0 <= i < j < r2.len() implies (#[trigger] r2[i]).0 != (#[trigger] r2[j]).0 by {
        if j == r.len() {
            assert(ids(r)[i] == r[i].0);
        }
    }
    assert forall|k: int| 0 <= k < r2.len() implies pool.contains(#[trigger] r2[k]) by {
        if k < r.len() {
            assert(r2[k] == r[k]);
        }
    }
}

proof fn lemma_rank_priority(elig: Seq<DeviceView>, prefs: Seq<(Seq<char>, Seq<char>)>)
    ensures
        within(rank_priority(elig, prefs), elig),
        distinct_ids(rank_priority(elig, prefs)),
    decreases prefs.len(),
{
    if prefs.len() > 0 {
        let r = rank_priority(elig, prefs.drop_last());
        lemma_rank_priority(elig, prefs.drop_last());
        let pref = prefs.last();
        if pref.0.len() > 0 {
            lemma_find_first_by(elig, ids(r), pref.0, true);
        }
        if pref.1.len() > 0 {
            lemma_find_first_by(elig, ids(r), pref.1, false);
        }
        if let Some(d) = pick(elig, ids(r), pref) {
            lemma_push_keeps(r, d, elig);
        }
    }
}

proof fn lemma_add_missing(ranked: Seq<DeviceView>, items: Seq<DeviceView>, only_default: bool, pool: Seq<DeviceView>)
    requires
        within(ranked, pool),
        distinct_ids(ranked),
        within(items, pool),
    ensures
        within(add_missing(ranked, items, only_default), pool),
        distinct_ids(add_missing(ranked, items, only_default)),
        !only_default ==> forall|k: int| 0 <= k < items.len() ==> ids(add_missing(ranked, items, only_default)).contains(#[trigger] items[k].0),
    decreases items.len(),
{
    if items.len() > 0 {
        let prev_items = items.drop_last();
        assert(within(prev_items, pool)) by {
            assert forall|k: int| 0 <= k < prev_items.len() implies pool.contains(#[trigger] prev_items[k]) by {
                assert(prev_items[k] == items[k]);
            }
        }
        lemma_add_missing(ranked, prev_items, only_default, pool);
        let r = add_missing(ranked, prev_items, only_default);
        let d = items.last();
        assert(items[items.len() - 1] == d);
        let out = add_missing(ranked, items, only_default);
        if (!only_default || d.2) && !ids(r).contains(d.0) {
            lemma_push_keeps(r, d, pool);
        }
        if !only_default {
            assert forall|k: int| 0 <= k < items.len() implies ids(out).contains(#[trigger] items[k].0) by {
                if k < items.len() - 1 {
                    assert(items[k] == prev_items[k]);
                    assert(ids(r).contains(prev_items[k].0));
                    let w = choose|w: int| 0 <= w < ids(r).len() && ids(r)[w] == prev_items[k].0;
                    if out.len() > r.len() {
                        assert(out[w] == r[w]);
                        assert(ids(out)[w] == ids(r)[w]);
                    }
                } else {
                    if out.len() > r.len() {
                        assert(ids(out)[r.len() as int] == d.0);
                    }
                }
            }
        }
    }
}

proof fn lemma_eligible_from(names: Seq<Seq<char>>, avail: Seq<DeviceView>)
    ensures
        within(eligible_from(names, avail), avail),
        forall|k: int| 0 <= k < eligible_from(names, avail).len() ==> !name_blocked(names, (#[trigger] eligible_from(names, avail)[k]).1),
        forall|k: int| 0 <= k < avail.len() && !name_blocked(names, (#[trigger] avail[k]).1) ==> eligible_from(names, avail).contains(avail[k]),
    decreases avail.len(),
{
    if avail.len() > 0 {
        let prev = avail.drop_last();
        lemma_eligible_from(names, prev);
        let r = eligible_from(names, prev);
        let out = eligible_from(names, avail);
        assert forall|k: int| 0 <= k < out.len() implies avail.contains(#[trigger] out[k]) by {
            if k < r.len() {
                assert(out[k] == r[k]);
                let w = choose|w: int| 0 <= w < prev.len() && prev[w] == r[k];
                assert(avail[w] == prev[w]);
            } else {
                assert(avail[avail.len() - 1] == avail.last());
            }
        }
        assert forall|k: int| 0 <= k < avail.len() && !name_blocked(names, (#[trigger] avail[k]).1) implies out.contains(avail[k]) by {
            if k < avail.len() - 1 {
                assert(avail[k] == prev[k]);
                let w = choose|w: int| 0 <= w < r.len() && r[w] == prev[k];
                assert(out[w] == r[w]);
            } else {
                assert(out[out.len() - 1] == avail.last());
            }
        }
        assert forall|k: int| 0 <= k < out.len() implies !name_blocked(names, (#[trigger] out[k]).1) by {
            if k < r.len() {
                assert(out[k] == r[k]);
            }
        }
    }
}

proof fn lemma_blocked_names(bl: Seq<(Seq<char>, Seq<char>)>, avail: Seq<DeviceView>)
    ensures
        forall|k: int| 0 <= k < avail.len() && some_ref_matches(bl, (#[trigger] avail[k]).0, avail[k].1) ==> blocked_names(bl, avail).contains(avail[k].1),
    decreases avail.len(),
{
    if avail.len() > 0 {
        let prev = avail.drop_last();
        lemma_blocked_names(bl, prev);
        let r = blocked_names(bl, prev);
        let out = blocked_names(bl, avail);
        assert forall|k: int| 0 <= k < avail.len() && some_ref_matches(bl, (#[trigger] avail[k]).0, avail[k].1) implies out.contains(avail[k].1) by {
            if k < avail.len() - 1 {
                assert(avail[k] == prev[k]);
                let w = choose|w: int| 0 <= w < r.len() && r[w] == prev[k].1;
                assert(out[w] == r[w]);
            } else {
                assert(out[out.len() - 1] == avail.last().1);
            }
        }
    }
}

/// The devices of `items` that satisfy `p`, in their order.
pub open spec fn keep(items: Seq<DeviceView>, p: spec_fn(DeviceView) -> bool) -> Seq<DeviceView>
    decreases items.len(),
{
    if items.len() == 0 {
        seq![]
    } else {
        let r = keep(items.drop_last(), p);
        if p(items.last()) { r.push(items.last()) } else { r }
    }
}

/// The devices of `items` that are default ones (or, with `default` false,
/// the others) and whose id is not in `done`, in their order.
pub open spec fn unranked(done: Seq<Seq<char>>, items: Seq<DeviceView>, default: bool) -> Seq<DeviceView> {
    keep(items, wanted(done, default))
}

/// Default (or, with `default` false, other) devices whose id is not in `done`.
pub open spec fn wanted(done: Seq<Seq<char>>, default: bool) -> spec_fn(DeviceView) -> bool {
    |d: DeviceView| d.2 == default && !done.contains(d.0)
}

/// What one pass of `add_missing` adds when `done` holds the ids ranked so far.
pub open spec fn addable(done: Seq<Seq<char>>, only_default: bool) -> spec_fn(DeviceView) -> bool {
    |d: DeviceView| (!only_default || d.2) && !done.contains(d.0)
}

proof fn lemma_keep_members(items: Seq<DeviceView>, p: spec_fn(DeviceView) -> bool)
    ensures
        forall|k: int| 0 <= k < keep(items, p).len() ==> items.contains(#[trigger] keep(items, p)[k]) && p(keep(items, p)[k]),
        forall|k: int| 0 <= k < items.len() && p(#[trigger] items[k]) ==> keep(items, p).contains(items[k]),
    decreases items.len(),
{
    if items.len() > 0 {
        let prev = items.drop_last();
        lemma_keep_members(prev, p);
        let r = keep(prev, p);
        let out = keep(items, p);
        assert forall|k: int| 0 <= k < out.len() implies items.contains(#[trigger] out[k]) && p(out[k]) by {
            if k < r.len() {
                assert(out[k] == r[k]);
                let w = choose|w: int| 0 <= w < prev.len() && prev[w] == r[k];
                assert(items[w] == prev[w]);
            } else {
                assert(items[items.len() - 1] == items.last());
            }
        }
        assert forall|k: int| 0 <= k < items.len() && p(#[trigger] items[k]) implies out.contains(items[k]) by {
            if k < items.len() - 1 {
                assert(items[k] == prev[k]);
                let w = choose|w: int| 0 <= w < r.len() && r[w] == prev[k];
                assert(out[w] == r[w]);
            } else {
                assert(items[k] == items.last());
                assert(out[out.len() - 1] == items.last());
            }
        }
    }
}

proof fn lemma_keep_congruent(items: Seq<DeviceView>, p: spec_fn(DeviceView) -> bool, q: spec_fn(DeviceView) -> bool)
    requires
        forall|k: int| 0 <= k < items.len() ==> p(#[trigger] items[k]) == q(items[k]),
    ensures
        keep(items, p) == keep(items, q),
    decreases items.len(),
{
    if items.len() > 0 {
        let prev = items.drop_last();
        assert forall|k: int| 0 <= k < prev.len() implies p(#[trigger] prev[k]) == q(prev[k]) by {
            assert(prev[k] == items[k]);
        }
        lemma_keep_congruent(prev, p, q);
        assert(items.last() == items[items.len() - 1]);
    }
}

proof fn lemma_ids_concat(a: Seq<DeviceView>, b: Seq<DeviceView>, x: Seq<char>)
    ensures
        ids(a + b).contains(x) <==> (ids(a).contains(x) || ids(b).contains(x)),
{
    let c = a + b;
    if ids(c).contains(x) {
        let k = choose|k: int| 0 <= k < ids(c).len() && ids(c)[k] == x;
        if k < a.len() {
            assert(ids(a)[k] == x);
        } else {
            assert(ids(b)[k - a.len()] == x);
        }
    }
    if ids(a).contains(x) {
        let k = choose|k: int| 0 <= k < ids(a).len() && ids(a)[k] == x;
        assert(ids(c)[k] == x);
    }
    if ids(b).contains(x) {
        let k = choose|k: int| 0 <= k < ids(b).len() && ids(b)[k] == x;
        assert(ids(c)[k + a.len()] == x);
    }
}

/// With distinct ids, one pass adds the missing devices in their order.
proof fn lemma_add_missing_keeps_order(ranked: Seq<DeviceView>, items: Seq<DeviceView>, only_default: bool)
    requires
        distinct_ids(items),
    ensures
        add_missing(ranked, items, only_default) == ranked + keep(items, addable(ids(ranked), only_default)),
    decreases items.len(),
{
    let p = addable(ids(ranked), only_default);
    if items.len() == 0 {
        assert(ranked + keep(items, p) =~= ranked);
    } else {
        let prev = items.drop_last();
        assert(distinct_ids(prev));
        lemma_add_missing_keeps_order(ranked, prev, only_default);
        let m = keep(prev, p);
        let d = items.last();
        lemma_keep_members(prev, p);
        lemma_ids_concat(ranked, m, d.0);
        if ids(m).contains(d.0) {
            let k = choose|k: int| 0 <= k < ids(m).len() && ids(m)[k] == d.0;
            assert(prev.contains(m[k]));
            let w = choose|w: int| 0 <= w < prev.len() && prev[w] == m[k];
            assert(items[w] == prev[w] && items[items.len() - 1] == d);
        }
        assert((ranked + m).push(d) =~= ranked + m.push(d));
    }
}

/// The order of the ranking: first the devices the priority list picks, in
/// priority order; then the default devices not picked yet, in the order
/// they are listed; then the other devices not picked yet, in the order they
/// are listed (the available devices having distinct ids).
pub proof fn law_ranking_order(
    bl: Seq<(Seq<char>, Seq<char>)>,
    prefs: Seq<(Seq<char>, Seq<char>)>,
    avail: Seq<DeviceView>,
)
    requires
        distinct_ids(avail),
    ensures
        ({
            let elig = eligible_spec(bl, avail);
            let r0 = rank_priority(elig, prefs);
            ranked_spec(bl, prefs, avail) == r0 + unranked(ids(r0), elig, true) + unranked(ids(r0), elig, false)
        }),
{
    let names = blocked_names(bl, avail);
    let elig = eligible_spec(bl, avail);
    lemma_eligible_distinct(names, avail);
    let r0 = rank_priority(elig, prefs);
    let p1 = addable(ids(r0), true);
    let u1 = wanted(ids(r0), true);
    assert forall|k: int| 0 <= k < elig.len() implies p1(#[trigger] elig[k]) == u1(elig[k]) by {}
    lemma_keep_congruent(elig, p1, u1);
    lemma_add_missing_keeps_order(r0, elig, true);
    let m1 = keep(elig, u1);
    let r1 = r0 + m1;
    assert(add_missing(r0, elig, true) == r1);
    lemma_add_missing_keeps_order(r1, elig, false);
    let p2 = addable(ids(r1), false);
    let u2 = wanted(ids(r0), false);
    lemma_keep_members(elig, u1);
    assert forall|k: int| 0 <= k < elig.len() implies p2(#[trigger] elig[k]) == u2(elig[k]) by {
        let d = elig[k];
        lemma_ids_concat(r0, m1, d.0);
        if d.2 {
            if !ids(r0).contains(d.0) {
                assert(u1(elig[k]));
                assert(m1.contains(d));
                let w = choose|w: int| 0 <= w < m1.len() && m1[w] == d;
                assert(ids(m1)[w] == d.0);
            }
        } else {
            if ids(m1).contains(d.0) {
                let w = choose|w: int| 0 <= w < ids(m1).len() && ids(m1)[w] == d.0;
                assert(elig.contains(m1[w]) && u1(m1[w]));
                let v = choose|v: int| 0 <= v < elig.len() && elig[v] == m1[w];
                assert(elig[v].0 == elig[k].0);
                assert(v != k);
            }
        }
    }
    lemma_keep_congruent(elig, p2, u2);
}

proof fn lemma_eligible_distinct(names: Seq<Seq<char>>, avail: Seq<DeviceView>)
    requires
        distinct_ids(avail),
    ensures
        distinct_ids(eligible_from(names, avail)),
    decreases avail.len(),
{
    if avail.len() > 0 {
        let prev = avail.drop_last();
        assert(distinct_ids(prev));
        lemma_eligible_distinct(names, prev);
        lemma_eligible_from(names, prev);
        let r = eligible_from(names, prev);
        if !name_blocked(names, avail.last().1) {
            let out = r.push(avail.last());
            assert forall|i: int, j: int| 0 <= i < j < out.len() implies (#[trigger] out[i]).0 != (#[trigger] out[j]).0 by {
                if j == r.len() {
                    assert(prev.contains(r[i]));
                    let w = choose|w: int| 0 <= w < prev.len() && prev[w] == r[i];
                    assert(avail[w] == prev[w]);
                    assert(avail[avail.len() - 1] == avail.last());
                } else {
                    assert(out[i] == r[i] && out[j] == r[j]);
                }
            }
        }
    }
}

/// The ranking never holds a device that the blacklist designates, nor one
/// that shares a name (ignoring ASCII case) with such a device; it holds
/// only available devices, each id at most once; and every available device
/// that is not blocked in this way has its id in the ranking.
pub proof fn law_ranking_respects_blacklist_and_keeps_the_rest(
    bl: Seq<(Seq<char>, Seq<char>)>,
    prefs: Seq<(Seq<char>, Seq<char>)>,
    avail: Seq<DeviceView>,
)
    ensures
        ({
            let r = ranked_spec(bl, prefs, avail);
            let names = blocked_names(bl, avail);
            &&& forall|k: int| 0 <= k < r.len() ==> avail.contains(#[trigger] r[k])
            &&& forall|k: int| 0 <= k < r.len() ==> !name_blocked(names, (#[trigger] r[k]).1)
            &&& forall|k: int| 0 <= k < r.len() ==> !some_ref_matches(bl, (#[trigger] r[k]).0, r[k].1)
            &&& distinct_ids(r)
            &&& forall|k: int| 0 <= k < avail.len() && !name_blocked(names, (#[trigger] avail[k]).1) ==> ids(r).contains(avail[k].0)
        }),
{
    let names = blocked_names(bl, avail);
    let elig = eligible_spec(bl, avail);
    lemma_eligible_from(names, avail);
    lemma_blocked_names(bl, avail);
    lemma_rank_priority(elig, prefs);
    let r0 = rank_priority(elig, prefs);
    assert(within(elig, elig)) by {
        assert forall|k: int| 0 <= k < elig.len() implies elig.contains(#[trigger] elig[k]) by {}
    }
    lemma_add_missing(r0, elig, true, elig);
    let r1 = add_missing(r0, elig, true);
    lemma_add_missing(r1, elig, false, elig);
    let r = ranked_spec(bl, prefs, avail);
    assert forall|k: int| 0 <= k < r.len() implies avail.contains(#[trigger] r[k]) && !name_blocked(names, r[k].1) by {
        assert(elig.contains(r[k]));
        let w = choose|w: int| 0 <= w < elig.len() && elig[w] == r[k];
        assert(!name_blocked(names, elig[w].1));
    }
    assert forall|k: int| 0 <= k < r.len() implies !some_ref_matches(bl, (#[trigger] r[k]).0, r[k].1) by {
        assert(avail.contains(r[k]));
        assert(!name_blocked(names, r[k].1));
        if some_ref_matches(bl, r[k].0, r[k].1) {
            let w = choose|w: int| 0 <= w < avail.len() && avail[w] == r[k];
            assert(names.contains(avail[w].1));
            let m = choose|m: int| 0 <= m < names.len() && names[m] == avail[w].1;
            assert(eq_ignore_ascii_case(names[m], r[k].1));
        }
    }
    assert forall|k: int| 0 <= k < avail.len() && !name_blocked(names, (#[trigger] avail[k]).1) implies ids(r).contains(avail[k].0) by {
        assert(elig.contains(avail[k]));
        let w = choose|w: int| 0 <= w < elig.len() && elig[w] == avail[k];
        assert(ids(r).contains(elig[w].0));
    }
}

/// With distinct device ids, the ranking holds each eligible device exactly
/// once: it is a permutation of the available devices, in listing order,
/// that the blacklist does not block.
pub proof fn law_ranking_is_a_permutation_of_the_eligible(
    bl: Seq<(Seq<char>, Seq<char>)>,
    prefs: Seq<(Seq<char>, Seq<char>)>,
    avail: Seq<DeviceView>,
)
    requires
        distinct_ids(avail),
    ensures
        ranked_spec(bl, prefs, avail).to_multiset() == eligible_spec(bl, avail).to_multiset(),
{
    broadcast use vstd::seq_lib::to_multiset_contains;
    let r = ranked_spec(bl, prefs, avail);
    let names = blocked_names(bl, avail);
    let elig = eligible_spec(bl, avail);
    law_ranking_respects_blacklist_and_keeps_the_rest(bl, prefs, avail);
    lemma_eligible_from(names, avail);
    lemma_eligible_distinct(names, avail);
    assert(r.no_duplicates()) by {
        assert forall|i: int, j: int| 0 <= i < r.len() && 0 <= j < r.len() && i != j implies r[i] != r[j] by {
            if i < j {
                assert(r[i].0 != r[j].0);
            } else {
                assert(r[j].0 != r[i].0);
            }
        }
    }
    assert(elig.no_duplicates()) by {
        assert forall|i: int, j: int| 0 <= i < elig.len() && 0 <= j < elig.len() && i != j implies elig[i] != elig[j] by {
            if i < j {
                assert(elig[i].0 != elig[j].0);
            } else {
                assert(elig[j].0 != elig[i].0);
            }
        }
    }
    assert forall|x: DeviceView| r.contains(x) implies elig.contains(x) by {
        let k = choose|k: int| 0 <= k < r.len() && r[k] == x;
        assert(avail.contains(r[k]));
        assert(!name_blocked(names, r[k].1));
        let w = choose|w: int| 0 <= w < avail.len() && avail[w] == r[k];
        assert(!name_blocked(names, avail[w].1));
    }
    assert forall|x: DeviceView| elig.contains(x) implies r.contains(x) by {
        let k = choose|k: int| 0 <= k < elig.len() && elig[k] == x;
        assert(avail.contains(elig[k]));
        assert(!name_blocked(names, elig[k].1));
        let w = choose|w: int| 0 <= w < avail.len() && avail[w] == x;
        assert(ids(r).contains(avail[w].0));
        let j = choose|j: int| 0 <= j < ids(r).len() && ids(r)[j] == x.0;
        assert(ids(r)[j] == r[j].0);
        assert(avail.contains(r[j]));
        let v = choose|v: int| 0 <= v < avail.len() && avail[v] == r[j];
        if v != w {
            if v < w {
                assert(avail[v].0 != avail[w].0);
            } else {
                assert(avail[w].0 != avail[v].0);
            }
        }
        assert(r[j] == x);
    }
    r.lemma_multiset_has_no_duplicates();
    elig.lemma_multiset_has_no_duplicates();
    assert forall|x: DeviceView| #[trigger] r.to_multiset().count(x) == elig.to_multiset().count(x) by {
        if r.contains(x) {
            assert(elig.contains(x));
        } else if elig.contains(x) {
            assert(r.contains(x));
        }
    }
    assert(r.to_multiset() =~= elig.to_multiset());
}

/// Identifier of a device listed through cpal: `cpal:{index}:{name}`.
pub open spec fn cpal_id_spec(index: nat, name: Seq<char>) -> Seq<char> {
    "cpal:"@ + decimal(index) + ":"@ + name
}

/// The identifier under which the `index`-th cpal input device is listed.
pub fn cpal_device_id(index: usize, name: &str) -> (r: String)
    ensures
        r@ == cpal_id_spec(index as nat, name@),
{
    let mut v = chars_of("cpal:");
    push_decimal(&mut v, index as u64);
    let sep = chars_of(":");
    append_chars(&mut v, &sep);
    let n = chars_of(name);
    append_chars(&mut v, &n);
    string_from(&v)
}

/// Name given to a device whose name cannot be read: `Input device {n}`,
/// counting from one.
pub open spec fn fallback_name(index: nat) -> Seq<char> {
    "Input device "@ + decimal(index + 1)
}

/// The entry for the `index`-th input device that cpal lists: its name, or
/// the fallback name when the name could not be read; it is the default
/// device when its name is the default device's name.
pub fn cpal_input_device(index: usize, name: Option<String>, default_name: Option<String>, platform: &str) -> (d: AudioInputDevice)
    requires
        index < usize::MAX,
    ensures
        d.name@ == (match name { Some(n) => n@, None => fallback_name(index as nat) }),
        d.id@ == cpal_id_spec(index as nat, d.name@),
        d.is_default == (match default_name { Some(n) => n@ == d.name@, None => false }),
        d.platform@ == platform@,
{
    let name = match name {
        Some(n) => n,
        None => {
            let mut v = chars_of("Input device ");
            push_decimal(&mut v, (index + 1) as u64);
            string_from(&v)
        },
    };
    let is_default = match &default_name {
        Some(n) => str_eq(n.as_str(), name.as_str()),
        None => false,
    };
    AudioInputDevice {
        id: cpal_device_id(index, name.as_str()),
        name,
        is_default,
        platform: crate::text::owned(platform),
    }
}

/// A device that cpal can open, known by its identifier and name.
#[derive(Debug, Clone, PartialEq, Eq)]
pub struct CpalDeviceInfo {
    pub id: String,
    pub name: String,
}

/// A ranked device matched with the cpal device (by position in cpal's list)
/// that will be opened for it.
#[derive(Debug, Clone, PartialEq, Eq)]
pub struct InputDeviceCandidate {
    pub cpal_index: usize,
    pub id: String,
    pub name: String,
}

pub open spec fn cviews(v: Seq<CpalDeviceInfo>) -> Seq<(Seq<char>, Seq<char>)> {
    v.map_values(|c: CpalDeviceInfo| (c.id@, c.name@))
}

/// The first cpal device not taken yet whose id (or, when `by_id` is false,
/// whose name) equals `key`.
pub open spec fn first_free(cpal: Seq<(Seq<char>, Seq<char>)>, taken: Set<int>, key: Seq<char>, by_id: bool, from: int) -> Option<int>
    decreases cpal.len() - from,
{
    if from < 0 || from >= cpal.len() {
        None
    } else if !taken.contains(from) && (if by_id { cpal[from].0 == key } else { cpal[from].1 == key }) {
        Some(from)
    } else {
        first_free(cpal, taken, key, by_id, from + 1)
    }
}

/// The cpal device a ranked device is opened with: same id, else same name.
pub open spec fn match_for(cpal: Seq<(Seq<char>, Seq<char>)>, taken: Set<int>, d: DeviceView) -> Option<int> {
    match first_free(cpal, taken, d.0, true, 0) {
        Some(i) => Some(i),
        None => first_free(cpal, taken, d.1, false, 0),
    }
}

/// Pairing ranked devices with cpal devices in ranking order; each cpal
/// device is used once and unmatched ranked devices are skipped.
pub open spec fn pair_devices(ranked: Seq<DeviceView>, cpal: Seq<(Seq<char>, Seq<char>)>) -> (Seq<(int, Seq<char>, Seq<char>)>, Set<int>)
    decreases ranked.len(),
{
    if ranked.len() == 0 {
        (seq![], Set::empty())
    } else {
        let (out, taken) = pair_devices(ranked.drop_last(), cpal);
        let d = ranked.last();
        match match_for(cpal, taken, d) {
            Some(i) => (out.push((i, d.0, d.1)), taken.insert(i)),
            None => (out, taken),
        }
    }
}

pub open spec fn candidate_views(v: Seq<InputDeviceCandidate>) -> Seq<(int, Seq<char>, Seq<char>)> {
    v.map_values(|c: InputDeviceCandidate| (c.cpal_index as int, c.id@, c.name@))
}

fn first_free_exec(cpal: &Vec<CpalDeviceInfo>, taken: &Vec<bool>, key: &str, by_id: bool) -> (r: Option<usize>)
    requires
        taken@.len() == cpal@.len(),
    ensures
        r matches Some(i) ==> i < cpal@.len(),
        (match r { Some(i) => Some(i as int), None => None::<int> }) == first_free(cviews(cpal@), Set::new(|k: int| 0 <= k < taken@.len() && taken@[k]), key@, by_id, 0),
{
    let ghost cv = cviews(cpal@);
    let ghost ts = Set::new(|k: int| 0 <= k < taken@.len() && taken@[k]);
    let mut i: usize = 0;
    while i < cpal.len()
        invariant
            i <= cpal.len(),
            taken@.len() == cpal@.len(),
            cv == cviews(cpal@),
            ts == Set::new(|k: int| 0 <= k < taken@.len() && taken@[k]),
            first_free(cv, ts, key@, by_id, 0) == first_free(cv, ts, key@, by_id, i as int),
        decreases cpal.len() - i,
    {
        let hit = if by_id { str_eq(cpal[i].id.as_str(), key) } else { str_eq(cpal[i].name.as_str(), key) };
        assert(cv[i as int] == (cpal@[i as int].id@, cpal@[i as int].name@));
        if !taken[i] && hit {
            return Some(i);
        }
        i = i + 1;
    }
    None
}

/// Pairs the ranked devices with the devices cpal can open: each ranked
/// device takes the first unused cpal device with its id, else the first
/// unused one with its name; ranked devices without a match are skipped.
pub fn pair_candidates(ranked: &Vec<AudioInputDevice>, cpal: &Vec<CpalDeviceInfo>) -> (r: Vec<InputDeviceCandidate>)
    ensures
        candidate_views(r@) == pair_devices(dviews(ranked@), cviews(cpal@)).0,
{
    let ghost rv = dviews(ranked@);
    let ghost cv = cviews(cpal@);
    let mut taken: Vec<bool> = Vec::new();
    let mut k: usize = 0;
    while k < cpal.len()
        invariant
            k <= cpal.len(),
            taken@.len() == k,
            forall|j: int| 0 <= j < k ==> !taken@[j],
        decreases cpal.len() - k,
    {
        taken.push(false);
        k = k + 1;
    }
    assert(Set::new(|k: int| 0 <= k < taken@.len() && taken@[k]) =~= Set::<int>::empty());
    let mut out: Vec<InputDeviceCandidate> = Vec::new();
    let mut i: usize = 0;
    assert(rv.take(0) =~= Seq::<DeviceView>::empty());
    assert(candidate_views(out@) =~= Seq::<(int, Seq<char>, Seq<char>)>::empty());
    while i < ranked.len()
        invariant
            i <= ranked.len(),
            rv == dviews(ranked@),
            cv == cviews(cpal@),
            taken@.len() == cpal@.len(),
            pair_devices(rv.take(i as int), cv) == (candidate_views(out@), Set::new(|k: int| 0 <= k < taken@.len() && taken@[k])),
        decreases ranked.len() - i,
    {
        proof {
            assert(rv.take(i + 1).drop_last() =~= rv.take(i as int));
            assert(rv.take(i + 1).last() == dview(ranked@[i as int]));
        }
        let d = &ranked[i];
        let mut found = first_free_exec(cpal, &taken, d.id.as_str(), true);
        if found.is_none() {
            found = first_free_exec(cpal, &taken, d.name.as_str(), false);
        }
        match found {
            Some(j) => {
                let ghost before_taken = Set::new(|k: int| 0 <= k < taken@.len() && taken@[k]);
                taken.set(j, true);
                assert(Set::new(|k: int| 0 <= k < taken@.len() && taken@[k]) =~= before_taken.insert(j as int));
                let c = InputDeviceCandidate { cpal_index: j, id: copy_string(&d.id), name: copy_string(&d.name) };
                let ghost before = candidate_views(out@);
                out.push(c);
                assert(candidate_views(out@) =~= before.push((j as int, d.id@, d.name@)));
            },
            None => {},
        }
        i = i + 1;
    }
    assert(rv.take(ranked.len() as int) =~= rv);
    out
}

/// The devices to try, in order, for recording: the ranking paired with the
/// devices cpal can open.  Fails when every device is blacklisted, or when
/// no ranked device can be opened.
pub fn input_device_candidates(config: &AudioConfig, available: &Vec<AudioInputDevice>, cpal: &Vec<CpalDeviceInfo>) -> (r: Result<Vec<InputDeviceCandidate>, String>)
    ensures
        ({
            let ranked = ranked_spec(ref_views(config.input_device_blacklist@), ref_views(config.input_device_priority@), dviews(available@));
            let pairs = pair_devices(ranked, cviews(cpal@)).0;
            match r {
                Ok(c) => ranked.len() > 0 && pairs.len() > 0 && candidate_views(c@) == pairs,
                Err(e) => (ranked.len() == 0 && e@ == "No eligible input device found; all available devices may be blacklisted"@)
                    || (ranked.len() > 0 && pairs.len() == 0 && e@ == "No eligible input device could be opened"@),
            }
        }),
{
    let ranked = rank_input_devices(config, available);
    if ranked.len() == 0 {
        return Err(crate::text::owned("No eligible input device found; all available devices may be blacklisted"));
    }
    let candidates = pair_candidates(&ranked, cpal);
    if candidates.len() == 0 {
        Err(crate::text::owned("No eligible input device could be opened"))
    } else {
        Ok(candidates)
    }
}

} // verus!
