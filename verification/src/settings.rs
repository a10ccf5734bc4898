//! Per-application configuration and the tunable parameters of the ducking
//! loop, with a dirty flag that tells when they need saving.
use vstd::prelude::*;
use crate::sound_mode::SoundMode;
use crate::text::text_eq;
use crate::platform::AudioController;

verus! {

/// What the user set for one application.
#[derive(Debug, Clone)]
pub struct AppConfig {
    pub process_name: String,
    pub sound_mode: SoundMode,
    pub user_volume: i32,
    pub priority: i32,
    pub original_volume: Option<i32>,
}

/// `c` is the configuration a new application named `name` starts with.
pub open spec fn is_fresh_config(c: AppConfig, name: Seq<char>) -> bool {
    &&& c.process_name@ == name
    &&& c.sound_mode == SoundMode::Auto
    &&& c.user_volume == 100
    &&& c.priority == 99
    &&& c.original_volume is None
}

impl Default for AppConfig {
    fn default() -> (r: Self)
        ensures
            is_fresh_config(r, Seq::empty()),
    {
        AppConfig {
            process_name: String::new(),
            sound_mode: SoundMode::Auto,
            user_volume: 100,
            priority: 99,
            original_volume: None,
        }
    }
}

/// The tunable parameters of the ducking loop, in integer units.
#[derive(Debug, Clone, Copy, PartialEq, Eq, Structural)]
pub struct RuntimeSettings {
    /// 0–100, percent.
    pub ducking_ratio: i32,
    /// 100–5000 ms.
    pub recovery_ms: i32,
    /// 0–20.
    pub active_peak_threshold: i32,
    /// 1–100, hundredths.
    pub envelope_attack: i32,
    /// 1–100, hundredths.
    pub envelope_release: i32,
    /// 0–100, hundredths.
    pub gain_coefficient: i32,
    /// 1000–10000 ms.
    pub inactivity_timeout_ms: i32,
    /// 1–50, thousandths.
    pub noise_std_threshold: i32,
}

impl Default for RuntimeSettings {
    fn default() -> (r: Self)
        ensures
            r == (RuntimeSettings {
                ducking_ratio: 20,
                recovery_ms: 1000,
                active_peak_threshold: 3,
                envelope_attack: 60,
                envelope_release: 15,
                gain_coefficient: 25,
                inactivity_timeout_ms: 3000,
                noise_std_threshold: 5,
            }),
    {
        RuntimeSettings {
            ducking_ratio: 20,
            recovery_ms: 1000,
            active_peak_threshold: 3,
            envelope_attack: 60,
            envelope_release: 15,
            gain_coefficient: 25,
            inactivity_timeout_ms: 3000,
            noise_std_threshold: 5,
        }
    }
}

impl RuntimeSettings {
    /// The recovery time as `u128` (a negative setting wraps, as `as`
    /// does).
    pub fn recovery_ms_u128(&self) -> (r: u128)
        ensures
            r == self.recovery_ms as u128,
    {
        self.recovery_ms as u128
    }

    pub fn active_peak_threshold_i32(&self) -> (r: i32)
        ensures
            r == self.active_peak_threshold,
    {
        self.active_peak_threshold
    }

    /// The inactivity timeout as `u32` (a negative setting wraps, as `as`
    /// does).
    pub fn inactivity_timeout_ms_u32(&self) -> (r: u32)
        ensures
            r == self.inactivity_timeout_ms as u32,
    {
        self.inactivity_timeout_ms as u32
    }
}

/// The configurations that a list of (name, configuration) entries holds,
/// a later entry for a name replacing an earlier one.
pub open spec fn entries_map(e: Seq<(String, AppConfig)>) -> Map<Seq<char>, AppConfig>
    decreases e.len(),
{
    if e.len() == 0 {
        Map::empty()
    } else {
        entries_map(e.drop_last()).insert(e.last().0@, e.last().1)
    }
}

/// No two entries share a name.
pub open spec fn names_distinct(e: Seq<(String, AppConfig)>) -> bool {
    forall|i: int, j: int| 0 <= i < j < e.len() ==> e[i].0@ != e[j].0@
}

proof fn lemma_entries_map_at(e: Seq<(String, AppConfig)>, i: int)
    requires
        names_distinct(e),
        0 <= i < e.len(),
    ensures
        entries_map(e).contains_key(e[i].0@),
        entries_map(e)[e[i].0@] == e[i].1,
    decreases e.len(),
{
    if i < e.len() - 1 {
        let d = e.drop_last();
        lemma_entries_map_at(d, i);
        assert(d[i] == e[i]);
    }
}

proof fn lemma_entries_map_dom(e: Seq<(String, AppConfig)>, k: Seq<char>)
    ensures
        entries_map(e).contains_key(k) <==> exists|i: int| 0 <= i < e.len() && e[i].0@ == k,
    decreases e.len(),
{
    if e.len() > 0 {
        let d = e.drop_last();
        lemma_entries_map_dom(d, k);
        if entries_map(e).contains_key(k) && k != e.last().0@ {
            let i = choose|i: int| 0 <= i < d.len() && d[i].0@ == k;
            assert(e[i] == d[i]);
        }
        if exists|i: int| 0 <= i < e.len() && e[i].0@ == k {
            let i = choose|i: int| 0 <= i < e.len() && e[i].0@ == k;
            if i < e.len() - 1 {
                assert(d[i] == e[i]);
            }
        }
    }
}

proof fn lemma_entries_map_update(e: Seq<(String, AppConfig)>, i: int, v: AppConfig)
    requires
        names_distinct(e),
        0 <= i < e.len(),
    ensures
        entries_map(e.update(i, (e[i].0, v))) == entries_map(e).insert(e[i].0@, v),
    decreases e.len(),
{
    let u = e.update(i, (e[i].0, v));
    if i < e.len() - 1 {
        let d = e.drop_last();
        assert(u.drop_last() =~= d.update(i, (d[i].0, v)));
        lemma_entries_map_update(d, i, v);
        assert(e.last().0@ != e[i].0@);
        assert(entries_map(u) =~= entries_map(e).insert(e[i].0@, v));
    } else {
        assert(u.drop_last() =~= e.drop_last());
        assert(entries_map(u) =~= entries_map(e).insert(e[i].0@, v));
    }
}

/// The settings of the application: a configuration per application name,
/// the runtime parameters, and whether anything changed since the last
/// save.
pub struct Settings {
    apps: Vec<(String, AppConfig)>,
    pub runtime: RuntimeSettings,
    dirty: bool,
}

impl Default for Settings {
    fn default() -> (r: Self)
        ensures
            r.wf(),
            r.apps() == Map::<Seq<char>, AppConfig>::empty(),
            r.params() == (RuntimeSettings {
                ducking_ratio: 20,
                recovery_ms: 1000,
                active_peak_threshold: 3,
                envelope_attack: 60,
                envelope_release: 15,
                gain_coefficient: 25,
                inactivity_timeout_ms: 3000,
                noise_std_threshold: 5,
            }),
            !r.dirty(),
    {
        Settings::new()
    }
}

impl Settings {
    /// The configuration of each application, by name.
    pub closed spec fn apps(&self) -> Map<Seq<char>, AppConfig> {
        entries_map(self.apps@)
    }

    /// The runtime parameters.
    pub closed spec fn params(&self) -> RuntimeSettings {
        self.runtime
    }

    /// Whether the settings changed since they were last saved.
    pub closed spec fn dirty(&self) -> bool {
        self.dirty
    }

    pub closed spec fn wf(&self) -> bool {
        names_distinct(self.apps@)
    }

    /// Settings with no application configured, default runtime
    /// parameters, and nothing to save.
    pub fn new() -> (r: Self)
        ensures
            r.wf(),
            r.apps() == Map::<Seq<char>, AppConfig>::empty(),
            r.params() == (RuntimeSettings {
                ducking_ratio: 20,
                recovery_ms: 1000,
                active_peak_threshold: 3,
                envelope_attack: 60,
                envelope_release: 15,
                gain_coefficient: 25,
                inactivity_timeout_ms: 3000,
                noise_std_threshold: 5,
            }),
            !r.dirty(),
    {
        Settings { apps: Vec::new(), runtime: RuntimeSettings::default(), dirty: false }
    }

    /// The runtime parameters.
    pub fn runtime(&self) -> (r: &RuntimeSettings)
        ensures
            *r == self.params(),
    {
        &self.runtime
    }

    /// Replaces the runtime parameters.
    pub fn set_runtime(&mut self, runtime: RuntimeSettings)
        ensures
            final(self).params() == runtime,
            final(self).apps() == old(self).apps(),
            final(self).wf() == old(self).wf(),
            final(self).dirty() == old(self).dirty(),
    {
        self.runtime = runtime;
    }

    /// The index of the entry for `name`.
    fn find_app(&self, name: &str) -> (r: Option<usize>)
        requires
            self.wf(),
        ensures
            match r {
                Some(i) => i < self.apps@.len() && self.apps@[i as int].0@ == name@,
                None => !self.apps().contains_key(name@),
            },
    {
        let mut i: usize = 0;
        while i < self.apps.len()
            invariant
                0 <= i <= self.apps@.len(),
                forall|k: int| 0 <= k < i ==> self.apps@[k].0@ != name@,
            decreases self.apps@.len() - i,
        {
            if text_eq(self.apps[i].0.as_str(), name) {
                return Some(i);
            }
            i = i + 1;
        }
        proof {
            lemma_entries_map_dom(self.apps@, name@);
        }
        None
    }

    /// The configuration of the application named `name`.
    pub fn get(&self, name: &str) -> (r: Option<&AppConfig>)
        requires
            self.wf(),
        ensures
            match r {
                Some(c) => self.apps().contains_key(name@) && *c == self.apps()[name@],
                None => !self.apps().contains_key(name@),
            },
    {
        match self.find_app(name) {
            Some(i) => {
                proof {
                    lemma_entries_map_at(self.apps@, i as int);
                }
                Some(&self.apps[i].1)
            },
            None => None,
        }
    }

    /// Sets the configuration of the application named `name`, replacing
    /// any it had.
    pub fn insert_app(&mut self, name: String, cfg: AppConfig)
        requires
            old(self).wf(),
        ensures
            final(self).wf(),
            final(self).apps() == old(self).apps().insert(name@, cfg),
            final(self).params() == old(self).params(),
            final(self).dirty() == old(self).dirty(),
    {
        match self.find_app(name.as_str()) {
            Some(i) => {
                let ghost key = self.apps@[i as int].0;
                proof {
                    lemma_entries_map_update(self.apps@, i as int, cfg);
                }
                self.apps.set(i, (name, cfg));
                proof {
                    let a = self.apps@;
                    let b = old(self).apps@.update(i as int, (key, cfg));
                    assert(forall|k: int| 0 <= k < a.len() ==> a[k].0@ == b[k].0@ && a[k].1 == b[k].1);
                    lemma_entries_map_same_keys(a, b);
                    assert(names_distinct(a));
                }
            },
            None => {
                let ghost n = name@;
                self.apps.push((name, cfg));
                proof {
                    assert(self.apps@.drop_last() =~= old(self).apps@);
                    lemma_push_new_name(old(self).apps@, n, self.apps@);
                }
            },
        }
    }

    /// The entries behind `apps()`, one per application name.
    pub fn app_entries(&self) -> (r: &[(String, AppConfig)])
        requires
            self.wf(),
        ensures
            entries_map(r@) == self.apps(),
            names_distinct(r@),
    {
        self.apps.as_slice()
    }

    pub fn mark_dirty(&mut self)
        ensures
            final(self).dirty(),
            final(self).apps() == old(self).apps(),
            final(self).wf() == old(self).wf(),
            final(self).params() == old(self).params(),
    {
        self.dirty = true;
    }

    pub fn is_dirty(&self) -> (r: bool)
        ensures
            r == self.dirty(),
    {
        self.dirty
    }

    /// Records that the settings were saved.
    pub fn mark_clean(&mut self)
        ensures
            !final(self).dirty(),
            final(self).apps() == old(self).apps(),
            final(self).wf() == old(self).wf(),
            final(self).params() == old(self).params(),
    {
        self.dirty = false;
    }

    /// The configuration of the application named `name`, created with
    /// the defaults (and that name as its process name) if it has none.
    pub fn get_or_default(&mut self, name: &str) -> (r: &mut AppConfig)
        requires
            old(self).wf(),
        ensures
            final(self).wf(),
            old(self).apps().contains_key(name@) ==> *r == old(self).apps()[name@],
            !old(self).apps().contains_key(name@) ==> is_fresh_config(*r, name@),
            final(self).apps() == old(self).apps().insert(name@, *final(r)),
            final(self).params() == old(self).params(),
            final(self).dirty() == old(self).dirty(),
    {
        let idx = match self.find_app(name) {
            Some(i) => i,
            None => {
                let cfg = AppConfig {
                    process_name: name.to_owned(),
                    sound_mode: SoundMode::Auto,
                    user_volume: 100,
                    priority: 99,
                    original_volume: None,
                };
                self.apps.push((name.to_owned(), cfg));
                proof {
                    assert(self.apps@.drop_last() =~= old(self).apps@);
                    lemma_push_new_name(old(self).apps@, name@, self.apps@);
                }
                self.apps.len() - 1
            },
        };
        proof {
            lemma_entries_map_at(self.apps@, idx as int);
            if old(self).apps().contains_key(name@) {
                lemma_entries_map_at(old(self).apps@, idx as int);
            }
        }
        let ghost before = self.apps@;
        let entry = &mut self.apps[idx];
        let r = &mut entry.1;
        proof {
            lemma_entries_map_update(before, idx as int, *final(r));
        }
        r
    }

    /// The volumes to give back: for each active (pid, name), in order,
    /// the volume the application had before ducking, where its
    /// configuration recorded one.
    pub fn restore_targets(&self, active_pids: &[(u32, String)]) -> (r: Vec<(u32, i32)>)
        requires
            self.wf(),
        ensures
            r@ == restore_list(self.apps(), active_pids@),
    {
        let mut out: Vec<(u32, i32)> = Vec::new();
        let mut i: usize = 0;
        while i < active_pids.len()
            invariant
                self.wf(),
                0 <= i <= active_pids@.len(),
                out@ == restore_list(self.apps(), active_pids@.take(i as int)),
            decreases active_pids@.len() - i,
        {
            proof {
                assert(active_pids@.take(i + 1).drop_last() =~= active_pids@.take(i as int));
            }
            let (pid, name) = (active_pids[i].0, &active_pids[i].1);
            if let Some(cfg) = self.get(name.as_str()) {
                if let Some(orig) = cfg.original_volume {
                    out.push((pid, orig));
                }
            }
            i = i + 1;
        }
        assert(active_pids@.take(active_pids@.len() as int) =~= active_pids@);
        out
    }

    /// Gives each active application back the volume it had before
    /// ducking, where its configuration recorded one.
    pub fn restore_all(&self, active_pids: &[(u32, String)])
        requires
            self.wf(),
    {
        let targets = self.restore_targets(active_pids);
        let mut i: usize = 0;
        while i < targets.len()
            invariant
                0 <= i <= targets@.len(),
            decreases targets@.len() - i,
        {
            AudioController::set_app_volume(targets[i].0, targets[i].1);
            i = i + 1;
        }
    }
}

/// What restoring gives back, in order: (pid, recorded volume) for each
/// active application whose configuration recorded a volume.
pub open spec fn restore_list(apps: Map<Seq<char>, AppConfig>, active: Seq<(u32, String)>) -> Seq<
    (u32, i32),
>
    decreases active.len(),
{
    if active.len() == 0 {
        Seq::empty()
    } else {
        let prev = restore_list(apps, active.drop_last());
        let (pid, name) = active.last();
        if apps.contains_key(name@) && apps[name@].original_volume is Some {
            prev.push((pid, apps[name@].original_volume->0))
        } else {
            prev
        }
    }
}

proof fn lemma_push_new_name(
    e: Seq<(String, AppConfig)>,
    n: Seq<char>,
    f: Seq<(String, AppConfig)>,
)
    requires
        names_distinct(e),
        !entries_map(e).contains_key(n),
        f.len() == e.len() + 1,
        f.drop_last() == e,
        f.last().0@ == n,
    ensures
        names_distinct(f),
        entries_map(f) == entries_map(e).insert(n, f.last().1),
{
    lemma_entries_map_dom(e, n);
    assert forall|i: int, j: int| 0 <= i < j < f.len() implies f[i].0@ != f[j].0@ by {
        assert(f[i] == e[i]);
        if j < e.len() {
            assert(f[j] == e[j]);
        }
    }
}

proof fn lemma_entries_map_same_keys(a: Seq<(String, AppConfig)>, b: Seq<(String, AppConfig)>)
    requires
        a.len() == b.len(),
        forall|k: int| 0 <= k < a.len() ==> a[k].0@ == b[k].0@ && a[k].1 == b[k].1,
    ensures
        entries_map(a) == entries_map(b),
    decreases a.len(),
{
    if a.len() > 0 {
        lemma_entries_map_same_keys(a.drop_last(), b.drop_last());
    }
}

} // verus!
