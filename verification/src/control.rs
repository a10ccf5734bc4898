//! The decisions of the control loop and of the user's commands: what the
//! saved settings give each session, which volumes to apply, in which order
//! sessions are shown, and how user input changes the settings.
use vstd::prelude::*;
use std::collections::HashMap;
use crate::sound_mode::SoundMode;
use crate::sound_type::AppSession;
use crate::settings::{Settings, AppConfig, RuntimeSettings};
use crate::priority::{
    effective_priority, insert_ranked, rank_sorted, ranked_before, session_priority,
};
use crate::platform::{clamp_percent, clamp_percent_spec};

verus! {

broadcast use vstd::std_specs::hash::group_hash_axioms;

/// The mode at position `index` of the mode picker: `Auto`, `Voice`,
/// `Music`, `Other`; any other position picks `Auto`.
pub open spec fn mode_at(index: i32) -> SoundMode {
    if index == 1 {
        SoundMode::Voice
    } else if index == 2 {
        SoundMode::Music
    } else if index == 3 {
        SoundMode::Other
    } else {
        SoundMode::Auto
    }
}

pub fn mode_from_index(index: i32) -> (r: SoundMode)
    ensures
        r == mode_at(index),
{
    match index {
        0 => SoundMode::Auto,
        1 => SoundMode::Voice,
        2 => SoundMode::Music,
        3 => SoundMode::Other,
        _ => SoundMode::Auto,
    }
}

/// The system volume after a step of `step` from `current`, kept in
/// `0..=100`.
pub fn step_volume(current: i32, step: i32) -> (r: i32)
    requires
        i32::MIN <= current + step <= i32::MAX,
    ensures
        r == clamp_percent_spec((current + step) as i32),
{
    clamp_percent(current + step)
}

/// Whether to save now: when something changed and the last save is more
/// than five seconds ago (or there was none).
pub fn should_save(dirty: bool, secs_since_last_save: Option<u64>) -> (r: bool)
    ensures
        r == (dirty && match secs_since_last_save {
            Some(s) => s > 5,
            None => true,
        }),
{
    dirty && match secs_since_last_save {
        Some(s) => s > 5,
        None => true,
    }
}

/// The configuration of the application named `k` is the same in `o` and
/// `f` (and present in both or in neither).
pub open spec fn unchanged_at(o: Map<Seq<char>, AppConfig>, f: Map<Seq<char>, AppConfig>, k: Seq<
    char,
>) -> bool {
    f.contains_key(k) == o.contains_key(k) && (o.contains_key(k) ==> f[k] == o[k])
}

/// The user picked `mode` for the application `name`: its configuration
/// (created if needed) takes the mode and the mode's base priority.
pub fn set_app_mode(settings: &mut Settings, name: &str, mode: SoundMode)
    requires
        old(settings).wf(),
    ensures
        final(settings).wf(),
        final(settings).dirty(),
        final(settings).params() == old(settings).params(),
        final(settings).apps().contains_key(name@),
        final(settings).apps()[name@].sound_mode == mode,
        final(settings).apps()[name@].priority == mode.base_priority_spec(),
        old(settings).apps().contains_key(name@) ==> final(settings).apps()[name@] == (AppConfig {
            sound_mode: mode,
            priority: mode.base_priority_spec(),
            ..old(settings).apps()[name@]
        }),
        !old(settings).apps().contains_key(name@) ==> {
            let c = final(settings).apps()[name@];
            &&& c.process_name@ == name@
            &&& c.user_volume == 100
            &&& c.original_volume is None
        },
        forall|k: Seq<char>|
            k != name@ ==> unchanged_at(old(settings).apps(), final(settings).apps(), k),
{
    let cfg = settings.get_or_default(name);
    cfg.sound_mode = mode;
    cfg.priority = mode.base_priority();
    settings.mark_dirty();
}

/// The user moved the volume slider of the application `name`: its
/// configuration (created if needed) keeps the volume, within `0..=100`.
pub fn set_app_user_volume(settings: &mut Settings, name: &str, volume: i32)
    requires
        old(settings).wf(),
    ensures
        final(settings).wf(),
        final(settings).dirty(),
        final(settings).params() == old(settings).params(),
        final(settings).apps().contains_key(name@),
        final(settings).apps()[name@].user_volume == clamp_percent_spec(volume),
        old(settings).apps().contains_key(name@) ==> final(settings).apps()[name@] == (AppConfig {
            user_volume: clamp_percent_spec(volume),
            ..old(settings).apps()[name@]
        }),
        !old(settings).apps().contains_key(name@) ==> {
            let c = final(settings).apps()[name@];
            &&& c.process_name@ == name@
            &&& c.sound_mode == SoundMode::Auto
            &&& c.priority == 99
            &&& c.original_volume is None
        },
        forall|k: Seq<char>|
            k != name@ ==> unchanged_at(old(settings).apps(), final(settings).apps(), k),
{
    let clamped = clamp_percent(volume);
    let cfg = settings.get_or_default(name);
    cfg.user_volume = clamped;
    settings.mark_dirty();
}

/// The user changed the runtime parameters.
pub fn set_runtime(settings: &mut Settings, runtime: RuntimeSettings)
    requires
        old(settings).wf(),
    ensures
        final(settings).wf(),
        final(settings).dirty(),
        final(settings).params() == runtime,
        final(settings).apps() == old(settings).apps(),
{
    settings.set_runtime(runtime);
    settings.mark_dirty();
}

/// The volume to apply to session `s`: its target, where it has one that
/// differs from its volume and it takes part in ducking.
pub open spec fn volume_update(s: AppSession, targets: Map<u32, i32>) -> Option<(u32, i32)> {
    if s.sound_mode != SoundMode::Other && targets.contains_key(s.pid) && targets[s.pid]
        != s.volume {
        Some((s.pid, targets[s.pid]))
    } else {
        None
    }
}

/// The volumes to apply, in session order.
pub open spec fn volume_updates_spec(sessions: Seq<AppSession>, targets: Map<u32, i32>) -> Seq<
    (u32, i32),
>
    decreases sessions.len(),
{
    if sessions.len() == 0 {
        Seq::empty()
    } else {
        let prev = volume_updates_spec(sessions.drop_last(), targets);
        match volume_update(sessions.last(), targets) {
            Some(u) => prev.push(u),
            None => prev,
        }
    }
}

/// The (pid, volume) pairs to apply after ducking: for each session not
/// in `Other` mode whose target differs from its current volume.
pub fn volume_updates(sessions: &[AppSession], targets: &HashMap<u32, i32>) -> (r: Vec<(u32, i32)>)
    ensures
        r@ == volume_updates_spec(sessions@, targets@),
{
    let mut out: Vec<(u32, i32)> = Vec::new();
    let mut i: usize = 0;
    while i < sessions.len()
        invariant
            0 <= i <= sessions@.len(),
            out@ == volume_updates_spec(sessions@.take(i as int), targets@),
        decreases sessions@.len() - i,
    {
        proof {
            assert(sessions@.take(i + 1).drop_last() =~= sessions@.take(i as int));
        }
        let s = &sessions[i];
        if s.sound_mode != SoundMode::Other {
            match targets.get(&s.pid) {
                Some(t) => {
                    if *t != s.volume {
                        out.push((s.pid, *t));
                    }
                },
                None => {},
            }
        }
        i = i + 1;
    }
    assert(sessions@.take(sessions@.len() as int) =~= sessions@);
    out
}

/// Where a session is shown: by rank, sessions kept out of ducking last.
pub open spec fn display_rank(s: AppSession) -> i32 {
    if session_priority(s) == -1 {
        i32::MAX
    } else {
        session_priority(s)
    }
}

/// `order` lists every session index once, by display rank, sessions of
/// equal rank in session order.
pub open spec fn is_display_order(sessions: Seq<AppSession>, order: Seq<(usize, i32)>) -> bool {
    &&& rank_sorted(order)
    &&& order.len() == sessions.len()
    &&& forall|j: int|
        0 <= j < order.len() ==> (#[trigger] order[j]).0 < sessions.len() && order[j].1
            == display_rank(sessions[order[j].0 as int])
}

/// The order in which sessions are shown, as (index, display rank): by
/// rank, sessions kept out of ducking last, ties in session order.
pub fn display_order(sessions: &[AppSession]) -> (r: Vec<(usize, i32)>)
    ensures
        is_display_order(sessions@, r@),
{
    let mut order: Vec<(usize, i32)> = Vec::new();
    let n = sessions.len();
    let mut i: usize = 0;
    while i < n
        invariant
            n == sessions@.len(),
            0 <= i <= n,
            order@.len() == i,
            rank_sorted(order@),
            forall|j: int|
                0 <= j < order@.len() ==> (#[trigger] order@[j]).0 < i && order@[j].1
                    == display_rank(sessions@[order@[j].0 as int]),
        decreases n - i,
    {
        let p = effective_priority(sessions[i].sound_mode, sessions[i].sound_type);
        let rank = if p == -1 {
            i32::MAX
        } else {
            p
        };
        let ghost old_order = order@;
        insert_ranked(&mut order, i, rank);
        proof {
            let pos = choose|pos: int|
                0 <= pos <= old_order.len() && order@ == old_order.insert(pos, (i, rank));
            assert forall|j: int| 0 <= j < order@.len() implies (#[trigger] order@[j]).0 < i + 1
                && order@[j].1 == display_rank(sessions@[order@[j].0 as int]) by {
                if j < pos {
                    assert(order@[j] == old_order[j]);
                } else if j > pos {
                    assert(order@[j] == old_order[j - 1]);
                }
            }
        }
        i = i + 1;
    }
    order
}

/// Some entry of `order` is session `i`.
pub open spec fn lists(order: Seq<(usize, i32)>, i: int) -> bool {
    exists|j: int| 0 <= j < order.len() && order[j].0 == i
}

/// A display order lists every session exactly once.
pub proof fn lemma_display_order_is_permutation(sessions: Seq<AppSession>, order: Seq<(usize, i32)>)
    requires
        is_display_order(sessions, order),
    ensures
        forall|j: int, k: int| 0 <= j < k < order.len() ==> order[j].0 != order[k].0,
        forall|i: int| 0 <= i < sessions.len() ==> #[trigger] lists(order, i),
{
    assert forall|j: int, k: int| 0 <= j < k < order.len() implies order[j].0 != order[k].0 by {
        assert(ranked_before(order[j], order[k]));
        if order[j].0 == order[k].0 {
            assert(order[j].1 == display_rank(sessions[order[j].0 as int]));
            assert(order[k].1 == display_rank(sessions[order[k].0 as int]));
        }
    }
    assert forall|i: int| 0 <= i < sessions.len() implies #[trigger] lists(order, i) by {
        lemma_indices_cover(order, sessions.len() as int, i);
    }
}

/// `n` distinct indices below `n` cover every index below `n`.
proof fn lemma_indices_cover(order: Seq<(usize, i32)>, n: int, i: int)
    requires
        order.len() == n,
        0 <= i < n,
        forall|j: int| 0 <= j < order.len() ==> (#[trigger] order[j]).0 < n,
        forall|j: int, k: int| 0 <= j < k < order.len() ==> order[j].0 != order[k].0,
    ensures
        exists|j: int| 0 <= j < order.len() && order[j].0 == i,
{
    let ks = order.map_values(|e: (usize, i32)| e.0 as int);
    assert(ks.no_duplicates()) by {
        assert forall|a: int, b: int| 0 <= a < ks.len() && 0 <= b < ks.len() && a != b implies ks[a]
            != ks[b] by {
            if a < b {
                assert(order[a].0 != order[b].0);
            } else {
                assert(order[b].0 != order[a].0);
            }
        }
    }
    let s = ks.to_set();
    ks.unique_seq_to_set();
    let full = Set::new(|x: int| 0 <= x < n);
    assert(s.subset_of(full)) by {
        assert forall|x: int| s.contains(x) implies full.contains(x) by {
            let a = choose|a: int| 0 <= a < ks.len() && ks[a] == x;
            assert(order[a].0 < n);
        }
    }
    vstd::set_lib::lemma_int_range(0, n);
    assert(full =~= vstd::set_lib::set_int_range(0, n));
    vstd::set_lib::lemma_subset_equality(s, full);
    assert(full.contains(i));
    assert(s.contains(i));
    let a = choose|a: int| 0 <= a < ks.len() && ks[a] == i;
    assert(order[a].0 == i);
}

/// Session `i` is the first of `s` for its application name.
pub open spec fn first_of_name(s: Seq<AppSession>, i: int) -> bool {
    0 <= i < s.len() && forall|k: int| 0 <= k < i ==> s[k].name@ != s[i].name@
}

/// Session `i` is the first of `s` for its process id.
pub open spec fn first_of_pid(s: Seq<AppSession>, i: int) -> bool {
    0 <= i < s.len() && forall|k: int| 0 <= k < i ==> s[k].pid != s[i].pid
}

/// No session of `s` belongs to the application named `n`.
pub open spec fn unnamed(s: Seq<AppSession>, n: Seq<char>) -> bool {
    forall|i: int| 0 <= i < s.len() ==> s[i].name@ != n
}

/// The configuration `f` that the application of session `s` has after
/// its saved settings were applied, given the one it had before (`o`, if
/// any): a configuration that recorded no volume yet records the session's
/// volume; a missing one is created with the defaults and that volume.
pub open spec fn applied_config(o: Option<AppConfig>, s: AppSession, f: AppConfig) -> bool {
    match o {
        Some(c) => if c.original_volume is Some {
            f == c
        } else {
            f == (AppConfig { original_volume: Some(s.volume), ..c })
        },
        None => {
            &&& f.process_name@ == s.name@
            &&& f.sound_mode == SoundMode::Auto
            &&& f.user_volume == 100
            &&& f.priority == 99
            &&& f.original_volume == Some(s.volume)
        },
    }
}

/// Applying saved settings to sessions `s` took configurations `o` to `f`.
pub open spec fn configs_applied(
    o: Map<Seq<char>, AppConfig>,
    f: Map<Seq<char>, AppConfig>,
    s: Seq<AppSession>,
) -> bool {
    &&& forall|k: Seq<char>|
        unnamed(s, k) ==> (f.contains_key(k) == o.contains_key(k) && (o.contains_key(k) ==> f[k]
            == o[k]))
    &&& forall|i: int|
        #![trigger s[i]]
        first_of_name(s, i) ==> f.contains_key(s[i].name@) && applied_config(
            lookup(o, s[i].name@),
            s[i],
            f[s[i].name@],
        )
}

/// The configuration of the application named `n`, if it has one.
pub open spec fn lookup(m: Map<Seq<char>, AppConfig>, n: Seq<char>) -> Option<AppConfig> {
    if m.contains_key(n) {
        Some(m[n])
    } else {
        None
    }
}

/// The application of session `s` has no recorded volume in `o`.
pub open spec fn lacks_record(o: Map<Seq<char>, AppConfig>, s: AppSession) -> bool {
    !o.contains_key(s.name@) || o[s.name@].original_volume is None
}

/// Some session of `s` lacks a recorded volume in `o`.
pub open spec fn records_missing(o: Map<Seq<char>, AppConfig>, s: Seq<AppSession>) -> bool {
    exists|i: int| 0 <= i < s.len() && #[trigger] lacks_record(o, s[i])
}

proof fn lemma_first_name(s: Seq<AppSession>, j: int) -> (i: int)
    requires
        0 <= j < s.len(),
    ensures
        0 <= i <= j,
        s[i].name@ == s[j].name@,
        first_of_name(s, i),
    decreases j,
{
    if forall|k: int| 0 <= k < j ==> s[k].name@ != s[j].name@ {
        j
    } else {
        let k = choose|k: int| 0 <= k < j && s[k].name@ == s[j].name@;
        lemma_first_name(s, k)
    }
}

proof fn lemma_first_pid(s: Seq<AppSession>, j: int) -> (i: int)
    requires
        0 <= j < s.len(),
    ensures
        0 <= i <= j,
        s[i].pid == s[j].pid,
        first_of_pid(s, i),
    decreases j,
{
    if forall|k: int| 0 <= k < j ==> s[k].pid != s[j].pid {
        j
    } else {
        let k = choose|k: int| 0 <= k < j && s[k].pid == s[j].pid;
        lemma_first_pid(s, k)
    }
}

/// Once a session of an application was seen, its configuration records a
/// volume.
proof fn lemma_applied_has_record(
    o: Map<Seq<char>, AppConfig>,
    f: Map<Seq<char>, AppConfig>,
    s: Seq<AppSession>,
    j: int,
)
    requires
        configs_applied(o, f, s),
        0 <= j < s.len(),
    ensures
        f.contains_key(s[j].name@),
        f[s[j].name@].original_volume is Some,
{
    let i = lemma_first_name(s, j);
    assert(f.contains_key(s[i].name@) && applied_config(lookup(o, s[i].name@), s[i], f[s[i].name@]));
}

proof fn lemma_apply_step(
    o: Map<Seq<char>, AppConfig>,
    before: Map<Seq<char>, AppConfig>,
    after: Map<Seq<char>, AppConfig>,
    t0: Seq<AppSession>,
    si: AppSession,
)
    requires
        configs_applied(o, before, t0),
        after.contains_key(si.name@),
        after == before.insert(si.name@, after[si.name@]),
        applied_config(lookup(before, si.name@), si, after[si.name@]),
    ensures
        configs_applied(o, after, t0.push(si)),
        unnamed(t0, si.name@) ==> lookup(before, si.name@) == lookup(o, si.name@),
        !unnamed(t0, si.name@) ==> after[si.name@] == before[si.name@],
        records_missing(o, t0.push(si)) == (records_missing(o, t0) || lacks_record(o, si)),
        !unnamed(t0, si.name@) ==> (lacks_record(o, si) ==> records_missing(o, t0)),
{
    let n = si.name@;
    let t1 = t0.push(si);
    assert forall|k: int| 0 <= k < t0.len() implies t1[k] == t0[k] by {}
    assert(t1[t0.len() as int] == si);
    if !unnamed(t0, n) {
        let j = choose|j: int| 0 <= j < t0.len() && t0[j].name@ == n;
        lemma_applied_has_record(o, before, t0, j);
        let i = lemma_first_name(t0, j);
        assert(applied_config(lookup(o, t0[i].name@), t0[i], before[t0[i].name@]));
        assert(lacks_record(o, si) == lacks_record(o, t0[i]));
    }
    assert forall|k: Seq<char>| unnamed(t1, k) implies (after.contains_key(k) == o.contains_key(k)
        && (o.contains_key(k) ==> after[k] == o[k])) by {
        assert(t1[t0.len() as int].name@ != k);
        assert forall|q: int| 0 <= q < t0.len() implies t0[q].name@ != k by {
            assert(t1[q] == t0[q]);
        }
        assert(unnamed(t0, k));
    }
    assert forall|q: int| #![trigger t1[q]] first_of_name(t1, q) implies after.contains_key(
        t1[q].name@,
    ) && applied_config(lookup(o, t1[q].name@), t1[q], after[t1[q].name@]) by {
        if q < t0.len() {
            assert(t1[q] == t0[q]);
            assert(first_of_name(t0, q));
        } else {
            assert forall|k: int| 0 <= k < t0.len() implies t0[k].name@ != n by {
                assert(t1[k] == t0[k]);
            }
        }
    }
    if records_missing(o, t1) && !records_missing(o, t0) {
        let q = choose|q: int| 0 <= q < t1.len() && #[trigger] lacks_record(o, t1[q]);
        if q < t0.len() {
            assert(t1[q] == t0[q]);
        }
    }
    if records_missing(o, t0) {
        let q = choose|q: int| 0 <= q < t0.len() && #[trigger] lacks_record(o, t0[q]);
        assert(t1[q] == t0[q]);
    }
    if lacks_record(o, si) {
        assert(lacks_record(o, t1[t0.len() as int]));
    }
}

/// Gives the application of each session a configuration that records the
/// volume it had when first seen.
fn record_configs(settings: &mut Settings, sessions: &[AppSession])
    requires
        old(settings).wf(),
    ensures
        final(settings).wf(),
        final(settings).params() == old(settings).params(),
        configs_applied(old(settings).apps(), final(settings).apps(), sessions@),
        final(settings).dirty() == (old(settings).dirty() || records_missing(
            old(settings).apps(),
            sessions@,
        )),
{
    let ghost o = settings.apps();
    let ghost s = sessions@;
    let n = sessions.len();
    let mut i: usize = 0;
    assert(s.take(0) =~= Seq::<AppSession>::empty());
    while i < n
        invariant
            n == s.len(),
            s == sessions@,
            0 <= i <= n,
            settings.wf(),
            settings.params() == old(settings).params(),
            o == old(settings).apps(),
            configs_applied(o, settings.apps(), s.take(i as int)),
            settings.dirty() == (old(settings).dirty() || records_missing(o, s.take(i as int))),
        decreases n - i,
    {
        let ghost before = settings.apps();
        let ghost si = s[i as int];
        let ghost t0 = s.take(i as int);
        let volume = sessions[i].volume;
        let cfg = settings.get_or_default(sessions[i].name.as_str());
        let need_mark = cfg.original_volume.is_none();
        if need_mark {
            cfg.original_volume = Some(volume);
        }
        proof {
            let after = settings.apps();
            assert(after == before.insert(si.name@, after[si.name@]));
            assert(applied_config(lookup(before, si.name@), si, after[si.name@]));
            assert(s.take(i + 1) =~= t0.push(si));
            lemma_apply_step(o, before, after, t0, si);
            if !unnamed(t0, si.name@) {
                let j = choose|j: int| 0 <= j < t0.len() && t0[j].name@ == si.name@;
                lemma_applied_has_record(o, before, t0, j);
            }
        }
        if need_mark {
            settings.mark_dirty();
        }
        i = i + 1;
    }
    assert(s.take(n as int) =~= s);
}

/// Applies the saved settings to the sessions found this tick: every
/// session's application gets a configuration (created if missing) that
/// records the volume it had when first seen, and each session takes the
/// mode its application is configured with. The settings become dirty when
/// a volume was recorded.
pub fn apply_saved_settings(settings: &mut Settings, sessions: &mut Vec<AppSession>)
    requires
        old(settings).wf(),
    ensures
        final(settings).wf(),
        final(settings).params() == old(settings).params(),
        configs_applied(old(settings).apps(), final(settings).apps(), old(sessions)@),
        final(settings).dirty() == (old(settings).dirty() || records_missing(
            old(settings).apps(),
            old(sessions)@,
        )),
        final(sessions)@.len() == old(sessions)@.len(),
        forall|i: int|
            0 <= i < old(sessions)@.len() ==> #[trigger] final(sessions)@[i] == (AppSession {
                sound_mode: final(settings).apps()[old(sessions)@[i].name@].sound_mode,
                ..old(sessions)@[i]
            }),
{
    record_configs(settings, sessions.as_slice());
    let ghost s = sessions@;
    let n = sessions.len();
    let mut i: usize = 0;
    while i < n
        invariant
            n == s.len(),
            0 <= i <= n,
            settings.wf(),
            s == old(sessions)@,
            sessions@.len() == n,
            configs_applied(old(settings).apps(), settings.apps(), s),
            forall|k: int| i <= k < n ==> #[trigger] sessions@[k] == s[k],
            forall|k: int|
                0 <= k < i ==> #[trigger] sessions@[k] == (AppSession {
                    sound_mode: settings.apps()[s[k].name@].sound_mode,
                    ..s[k]
                }),
        decreases n - i,
    {
        proof {
            lemma_applied_has_record(old(settings).apps(), settings.apps(), s, i as int);
        }
        let mode = match settings.get(sessions[i].name.as_str()) {
            Some(cfg) => cfg.sound_mode,
            None => sessions[i].sound_mode,
        };
        sessions[i].sound_mode = mode;
        i = i + 1;
    }
}

/// No session of `s` has process id `p`.
pub open spec fn pid_absent(s: Seq<AppSession>, p: u32) -> bool {
    forall|i: int| 0 <= i < s.len() ==> s[i].pid != p
}

/// The record of original volumes after the sessions `s` were seen: each
/// process id not yet recorded gets the name and volume of its first
/// session, and its name is remembered for it; everything else stays.
pub open spec fn originals_recorded(
    oo: Map<u32, (String, i32)>,
    fo: Map<u32, (String, i32)>,
    on: Map<u32, String>,
    fname: Map<u32, String>,
    s: Seq<AppSession>,
) -> bool {
    &&& forall|p: u32|
        pid_absent(s, p) ==> (fo.contains_key(p)
            == oo.contains_key(p) && (oo.contains_key(p) ==> fo[p] == oo[p]) && fname.contains_key(p)
            == on.contains_key(p) && (on.contains_key(p) ==> fname[p] == on[p]))
    &&& forall|i: int|
        #![trigger s[i]]
        first_of_pid(s, i) ==> if oo.contains_key(s[i].pid) {
            &&& fo.contains_key(s[i].pid)
            &&& fo[s[i].pid] == oo[s[i].pid]
            &&& fname.contains_key(s[i].pid) == on.contains_key(s[i].pid)
            &&& on.contains_key(s[i].pid) ==> fname[s[i].pid] == on[s[i].pid]
        } else {
            &&& fo.contains_key(s[i].pid)
            &&& fo[s[i].pid] == (s[i].name, s[i].volume)
            &&& fname.contains_key(s[i].pid)
            &&& fname[s[i].pid] == s[i].name
        }
}

proof fn lemma_record_step(
    oo: Map<u32, (String, i32)>,
    bo: Map<u32, (String, i32)>,
    fo: Map<u32, (String, i32)>,
    on: Map<u32, String>,
    bn: Map<u32, String>,
    fname: Map<u32, String>,
    t0: Seq<AppSession>,
    si: AppSession,
)
    requires
        originals_recorded(oo, bo, on, bn, t0),
        bo.contains_key(si.pid) ==> fo == bo && fname == bn,
        !bo.contains_key(si.pid) ==> fo == bo.insert(si.pid, (si.name, si.volume)) && fname
            == bn.insert(si.pid, si.name),
    ensures
        originals_recorded(oo, fo, on, fname, t0.push(si)),
{
    let t1 = t0.push(si);
    assert forall|k: int| 0 <= k < t0.len() implies t1[k] == t0[k] by {}
    assert(t1[t0.len() as int] == si);
    let unseen = forall|k: int| 0 <= k < t0.len() ==> t0[k].pid != si.pid;
    if !unseen {
        let k = choose|k: int| 0 <= k < t0.len() && t0[k].pid != si.pid == false;
        let k0 = lemma_first_pid(t0, k);
        assert(bo.contains_key(si.pid));
    }
    assert forall|p: u32| pid_absent(t1, p) implies (
    fo.contains_key(p) == oo.contains_key(p) && (oo.contains_key(p) ==> fo[p] == oo[p])
        && fname.contains_key(p) == on.contains_key(p) && (on.contains_key(p) ==> fname[p]
        == on[p])) by {
        assert(t1[t0.len() as int].pid != p);
        assert forall|q: int| 0 <= q < t0.len() implies t0[q].pid != p by {
            assert(t1[q] == t0[q]);
        }
        assert(pid_absent(t0, p));
    }
    assert forall|q: int| #![trigger t1[q]] first_of_pid(t1, q) implies (if oo.contains_key(
        t1[q].pid,
    ) {
        &&& fo.contains_key(t1[q].pid)
        &&& fo[t1[q].pid] == oo[t1[q].pid]
        &&& fname.contains_key(t1[q].pid) == on.contains_key(t1[q].pid)
        &&& on.contains_key(t1[q].pid) ==> fname[t1[q].pid] == on[t1[q].pid]
    } else {
        &&& fo.contains_key(t1[q].pid)
        &&& fo[t1[q].pid] == (t1[q].name, t1[q].volume)
        &&& fname.contains_key(t1[q].pid)
        &&& fname[t1[q].pid] == t1[q].name
    }) by {
        if q < t0.len() {
            assert(t1[q] == t0[q]);
            assert(first_of_pid(t0, q));
        } else {
            assert forall|k: int| 0 <= k < t0.len() implies t0[k].pid != si.pid by {
                assert(t1[k] == t0[k]);
            }
        }
    }
}

/// Remembers, for each process id seen for the first time, the name and
/// volume of its session (to restore on exit) and its name (to find its
/// configuration from user input).
pub fn record_original_volumes(
    originals: &mut HashMap<u32, (String, i32)>,
    pid_names: &mut HashMap<u32, String>,
    sessions: &[AppSession],
)
    ensures
        originals_recorded(
            old(originals)@,
            final(originals)@,
            old(pid_names)@,
            final(pid_names)@,
            sessions@,
        ),
{
    let ghost oo = originals@;
    let ghost on = pid_names@;
    let ghost s = sessions@;
    let n = sessions.len();
    let mut i: usize = 0;
    assert(s.take(0) =~= Seq::<AppSession>::empty());
    while i < n
        invariant
            n == s.len(),
            s == sessions@,
            0 <= i <= n,
            oo == old(originals)@,
            on == old(pid_names)@,
            originals_recorded(oo, originals@, on, pid_names@, s.take(i as int)),
        decreases n - i,
    {
        let ghost bo = originals@;
        let ghost bn = pid_names@;
        let pid = sessions[i].pid;
        if !originals.contains_key(&pid) {
            let name1 = sessions[i].name.clone();
            let name2 = sessions[i].name.clone();
            originals.insert(pid, (name1, sessions[i].volume));
            pid_names.insert(pid, name2);
        }
        proof {
            assert(s.take(i + 1) =~= s.take(i as int).push(s[i as int]));
            lemma_record_step(
                oo,
                bo,
                originals@,
                on,
                bn,
                pid_names@,
                s.take(i as int),
                s[i as int],
            );
        }
        i = i + 1;
    }
    assert(s.take(n as int) =~= s);
}

/// A volume recorded for an application is never replaced by a later one:
/// applying saved settings keeps every configuration that already recorded
/// a volume, and an application first seen now records the volume of its
/// first session.
pub proof fn lemma_original_volume_recorded_once(
    o: Map<Seq<char>, AppConfig>,
    f: Map<Seq<char>, AppConfig>,
    s: Seq<AppSession>,
    i: int,
)
    requires
        configs_applied(o, f, s),
        0 <= i < s.len(),
    ensures
        f.contains_key(s[i].name@),
        o.contains_key(s[i].name@) && o[s[i].name@].original_volume is Some ==> f[s[i].name@]
            == o[s[i].name@],
        first_of_name(s, i) && lacks_record(o, s[i]) ==> f[s[i].name@].original_volume == Some(
            s[i].volume,
        ),
{
    let j = lemma_first_name(s, i);
    assert(applied_config(lookup(o, s[j].name@), s[j], f[s[j].name@]));
}

/// Which volumes get applied depends on each session's current volume,
/// not on its effective volume: sessions that differ only in
/// `effective_volume` give the same updates.
pub proof fn lemma_updates_ignore_effective_volume(
    s1: Seq<AppSession>,
    s2: Seq<AppSession>,
    targets: Map<u32, i32>,
)
    requires
        s1.len() == s2.len(),
        forall|i: int|
            0 <= i < s1.len() ==> #[trigger] s2[i] == (AppSession {
                effective_volume: s2[i].effective_volume,
                ..s1[i]
            }),
    ensures
        volume_updates_spec(s1, targets) == volume_updates_spec(s2, targets),
    decreases s1.len(),
{
    if s1.len() > 0 {
        let n = s1.len() - 1;
        assert(s2[n] == (AppSession { effective_volume: s2[n].effective_volume, ..s1[n] }));
        assert forall|i: int| 0 <= i < s1.drop_last().len() implies #[trigger] s2.drop_last()[i]
            == (AppSession { effective_volume: s2.drop_last()[i].effective_volume, ..s1.drop_last()[i] }) by {
            assert(s2[i] == (AppSession { effective_volume: s2[i].effective_volume, ..s1[i] }));
        }
        lemma_updates_ignore_effective_volume(s1.drop_last(), s2.drop_last(), targets);
    }
}

/// Every session not in `Other` mode whose target differs from its volume
/// gets its target applied.
pub proof fn lemma_changed_target_applied(sessions: Seq<AppSession>, targets: Map<u32, i32>, i: int)
    requires
        0 <= i < sessions.len(),
        sessions[i].sound_mode != SoundMode::Other,
        targets.contains_key(sessions[i].pid),
        targets[sessions[i].pid] != sessions[i].volume,
    ensures
        volume_updates_spec(sessions, targets).contains((sessions[i].pid, targets[sessions[i].pid])),
    decreases sessions.len(),
{
    let prev = sessions.drop_last();
    let r = volume_updates_spec(sessions, targets);
    if i < sessions.len() - 1 {
        assert(prev[i] == sessions[i]);
        lemma_changed_target_applied(prev, targets, i);
        let rp = volume_updates_spec(prev, targets);
        let k = choose|k: int| 0 <= k < rp.len() && rp[k] == (prev[i].pid, targets[prev[i].pid]);
        assert(r[k] == rp[k]);
    } else {
        assert(r[r.len() - 1] == (sessions[i].pid, targets[sessions[i].pid]));
    }
}

/// Every update applied is the target of a session not in `Other` mode
/// whose target differs from its volume: the `j`-th update comes from
/// session `i`.
pub proof fn lemma_update_has_source(sessions: Seq<AppSession>, targets: Map<u32, i32>, j: int) -> (i:
    int)
    requires
        0 <= j < volume_updates_spec(sessions, targets).len(),
    ensures
        0 <= i < sessions.len(),
        sessions[i].sound_mode != SoundMode::Other,
        targets.contains_key(sessions[i].pid),
        targets[sessions[i].pid] != sessions[i].volume,
        volume_updates_spec(sessions, targets)[j] == (sessions[i].pid, targets[sessions[i].pid]),
    decreases sessions.len(),
{
    let prev = sessions.drop_last();
    let n = sessions.len() - 1;
    let rp = volume_updates_spec(prev, targets);
    if j < rp.len() {
        let i = lemma_update_has_source(prev, targets, j);
        assert(prev[i] == sessions[i]);
        i
    } else {
        assert(sessions[n] == sessions.last());
        n
    }
}

/// There are never more updates than sessions.
pub proof fn lemma_updates_bounded(sessions: Seq<AppSession>, targets: Map<u32, i32>)
    ensures
        volume_updates_spec(sessions, targets).len() <= sessions.len(),
    decreases sessions.len(),
{
    if sessions.len() > 0 {
        lemma_updates_bounded(sessions.drop_last(), targets);
    }
}

} // verus!
