//! Which applications count as playing: an application is active while its
//! peak level exceeds a threshold and for a timeout after it last did.
use vstd::prelude::*;
use std::collections::{HashMap, HashSet};
use std::time::Instant;
use crate::settings::Settings;
use vstd::std_specs::iter::IteratorSpec;

verus! {

broadcast use vstd::std_specs::hash::group_hash_axioms;

#[verifier::external_type_specification]
#[verifier::external_body]
pub struct ExInstant(Instant);

/// The current instant of the monotonic clock.
///
/// Wraps `std::time::Instant::now`; nothing is stated of the instant it
/// returns.
#[verifier::external_body]
fn instant_now() -> Instant {
    Instant::now()
}

/// Nanoseconds elapsed since `origin`.
///
/// Wraps `std::time::Instant::elapsed` (read as nanoseconds); the value
/// depends on the clock, so nothing is stated of it.
#[verifier::external_body]
fn nanos_since(origin: &Instant) -> u128 {
    origin.elapsed().as_nanos()
}

/// Whole milliseconds between `last` and `now` (nanosecond readings of one
/// clock), cut to `u32` as `as` does; `0` where `now` precedes `last`.
pub open spec fn elapsed_ms(last: u128, now: u128) -> u32 {
    if now >= last {
        ((now - last) / 1_000_000) as u32
    } else {
        0
    }
}

/// One activity check, as a pure step on the map of last-loud times:
/// a loud tick records `now` and counts as active; a quiet tick counts as
/// active while fewer than `timeout` ms passed since the last loud one,
/// and forgets the application once they have.
pub open spec fn activity_step(
    m: Map<u32, u128>,
    timeout: u32,
    pid: u32,
    peak_level: i32,
    threshold: i32,
    now: u128,
) -> (Map<u32, u128>, bool) {
    if peak_level > threshold {
        (m.insert(pid, now), true)
    } else if m.contains_key(pid) {
        if elapsed_ms(m[pid], now) < timeout {
            (m, true)
        } else {
            (m.remove(pid), false)
        }
    } else {
        (m, false)
    }
}

/// Remembers, per process id, when each application was last loud.
pub struct ActivityTracker {
    origin: Instant,
    clock: u128,
    last_active: HashMap<u32, u128>,
    timeout_ms: u32,
}

impl ActivityTracker {
    /// When each tracked application was last loud, in nanoseconds of the
    /// tracker's clock.
    pub closed spec fn last_loud(&self) -> Map<u32, u128> {
        self.last_active@
    }

    /// The latest reading of the tracker's clock that a check used:
    /// nanoseconds since the tracker was made, as `Instant::elapsed` gives
    /// them.
    pub closed spec fn clock(&self) -> u128 {
        self.clock
    }

    /// How long (ms) an application stays active after it was last loud.
    pub closed spec fn timeout(&self) -> u32 {
        self.timeout_ms
    }

    pub fn new(settings: &Settings) -> (r: Self)
        ensures
            r.last_loud() == Map::<u32, u128>::empty(),
            r.timeout() == settings.params().inactivity_timeout_ms as u32,
            r.clock() == 0,
    {
        ActivityTracker {
            origin: instant_now(),
            clock: 0,
            last_active: HashMap::new(),
            timeout_ms: settings.runtime().inactivity_timeout_ms_u32(),
        }
    }

    pub fn update_timeout(&mut self, settings: &Settings)
        ensures
            final(self).last_loud() == old(self).last_loud(),
            final(self).timeout() == settings.params().inactivity_timeout_ms as u32,
            final(self).clock() == old(self).clock(),
    {
        self.timeout_ms = settings.runtime().inactivity_timeout_ms_u32();
    }

    /// Whether `pid` counts as playing, given its current peak level, at
    /// clock reading `now` (nanoseconds).
    pub fn is_active_at(&mut self, pid: u32, peak_level: i32, threshold: i32, now: u128) -> (r:
        bool)
        ensures
            (final(self).last_loud(), r) == activity_step(
                old(self).last_loud(),
                old(self).timeout(),
                pid,
                peak_level,
                threshold,
                now,
            ),
            final(self).timeout() == old(self).timeout(),
            final(self).clock() == old(self).clock(),
    {
        if peak_level > threshold {
            self.last_active.insert(pid, now);
            true
        } else {
            match self.last_active.get(&pid) {
                Some(last) => {
                    let last = *last;
                    let elapsed = if now >= last {
                        ((now - last) / 1_000_000) as u32
                    } else {
                        0
                    };
                    if elapsed < self.timeout_ms {
                        true
                    } else {
                        self.last_active.remove(&pid);
                        false
                    }
                },
                None => false,
            }
        }
    }

    /// Whether `pid` counts as playing, given its current peak level; the
    /// check is made at the current reading of the tracker's clock, which
    /// the tracker keeps as `clock()`.
    pub fn is_active(&mut self, pid: u32, peak_level: i32, threshold: i32) -> (r: bool)
        ensures
            (final(self).last_loud(), r) == activity_step(
                old(self).last_loud(),
                old(self).timeout(),
                pid,
                peak_level,
                threshold,
                final(self).clock(),
            ),
            exists|now: u128|
                (final(self).last_loud(), r) == activity_step(
                    old(self).last_loud(),
                    old(self).timeout(),
                    pid,
                    peak_level,
                    threshold,
                    now,
                ),
            final(self).timeout() == old(self).timeout(),
    {
        self.clock = nanos_since(&self.origin);
        let r = self.is_active_at(pid, peak_level, threshold, self.clock);
        proof {
            let now = self.clock;
            assert((self.last_loud(), r) == activity_step(
                old(self).last_loud(),
                old(self).timeout(),
                pid,
                peak_level,
                threshold,
                now,
            ));
        }
        r
    }

    /// Forgets every application whose process id is not in `active_pids`.
    pub fn cleanup(&mut self, active_pids: &HashSet<u32>)
        ensures
            final(self).last_loud() == old(self).last_loud().restrict(active_pids@),
            final(self).timeout() == old(self).timeout(),
            final(self).clock() == old(self).clock(),
    {
        let mut stale: Vec<u32> = Vec::new();
        let ghost dom = self.last_active@.dom();
        let ghost all = vstd::std_specs::hash::spec_keys_iter(&self.last_active).remaining();
        for k in it: self.last_active.keys()
            invariant
                dom == self.last_active@.dom(),
                it.seq() == all,
                all.unref().to_set() == dom,
                forall|j: int|
                    0 <= j < stale@.len() ==> dom.contains(#[trigger] stale@[j])
                        && !active_pids@.contains(stale@[j]),
                forall|j: int|
                    0 <= j < it.index() && !active_pids@.contains(*all[j]) ==> exists|q: int|
                        0 <= q < stale@.len() && #[trigger] stale@[q] == *all[j],
        {
            let ghost prev = stale@;
            let ghost idx = it.index();
            assert(*k == *all[idx]);
            if !active_pids.contains(k) {
                stale.push(*k);
            }
            proof {
                assert(forall|q: int| 0 <= q < prev.len() ==> stale@[q] == prev[q]);
                assert forall|j: int|
                    0 <= j < idx + 1 && !active_pids@.contains(*all[j]) implies exists|q: int|
                        0 <= q < stale@.len() && #[trigger] stale@[q] == *all[j] by {
                    if j < idx {
                        let q0 = choose|q: int| 0 <= q < prev.len() && #[trigger] prev[q] == *all[j];
                        assert(stale@[q0] == prev[q0]);
                    } else {
                        assert(stale@[prev.len() as int] == *all[j]);
                    }
                }
            }
        }
        let ghost before = self.last_active@;
        let mut i: usize = 0;
        while i < stale.len()
            invariant
                0 <= i <= stale@.len(),
                self.timeout_ms == old(self).timeout_ms,
                self.clock == old(self).clock,
                forall|j: int|
                    0 <= j < stale@.len() ==> !active_pids@.contains(#[trigger] stale@[j]),
                forall|x: u32|
                    #[trigger] self.last_active@.contains_key(x) ==> before.contains_key(x)
                        && self.last_active@[x] == before[x],
                forall|x: u32|
                    before.contains_key(x) && !(#[trigger] self.last_active@.contains_key(x))
                        ==> !active_pids@.contains(x),
                forall|j: int| 0 <= j < i ==> !self.last_active@.contains_key(#[trigger] stale@[j]),
            decreases stale@.len() - i,
        {
            let k = stale[i];
            self.last_active.remove(&k);
            i = i + 1;
        }
        proof {
            assert forall|x: u32| #[trigger]
                before.dom().contains(x) && !active_pids@.contains(x) implies !self.last_active@.contains_key(x) by {
                assert(all.unref().to_set().contains(x));
                let j = choose|j: int| 0 <= j < all.len() && all.unref()[j] == x;
                assert(*all[j] == x);
                let q = choose|q: int| 0 <= q < stale@.len() && #[trigger] stale@[q] == *all[j];
                assert(!self.last_active@.contains_key(stale@[q]));
            }
            assert(self.last_active@ =~= before.restrict(active_pids@));
        }
    }
}

/// An application that was loud stays active on quiet ticks until the
/// timeout has passed since that loud tick, and is dropped once it has.
pub proof fn lemma_active_until_timeout(
    m: Map<u32, u128>,
    timeout: u32,
    pid: u32,
    loud: i32,
    quiet: i32,
    threshold: i32,
    t0: u128,
    t1: u128,
)
    requires
        loud > threshold,
        quiet <= threshold,
    ensures
        ({
            let (m1, a0) = activity_step(m, timeout, pid, loud, threshold, t0);
            let (m2, a1) = activity_step(m1, timeout, pid, quiet, threshold, t1);
            &&& a0
            &&& a1 == (elapsed_ms(t0, t1) < timeout)
            &&& a1 ==> m2 == m1
            &&& !a1 ==> !m2.contains_key(pid)
        }),
{
}

/// Clock readings are nanoseconds and the timeout milliseconds: after a
/// loud check at reading `t0`, a quiet check at a later reading `t1` counts
/// as active exactly when fewer than `timeout` milliseconds (`timeout *
/// 1_000_000` nanoseconds) passed in between.
pub proof fn lemma_timeout_in_nanoseconds(
    m: Map<u32, u128>,
    timeout: u32,
    pid: u32,
    loud: i32,
    quiet: i32,
    threshold: i32,
    t0: u128,
    t1: u128,
)
    requires
        loud > threshold,
        quiet <= threshold,
        t0 <= t1,
        t1 - t0 < 1_000_000 * 0x1_0000_0000,
    ensures
        activity_step(
            activity_step(m, timeout, pid, loud, threshold, t0).0,
            timeout,
            pid,
            quiet,
            threshold,
            t1,
        ).1 == (t1 - t0 < timeout * 1_000_000),
{
    let d = t1 - t0;
    let q = d / 1_000_000;
    assert(q * 1_000_000 <= d < (q + 1) * 1_000_000) by (nonlinear_arith)
        requires
            q == d / 1_000_000,
            d >= 0,
    ;
    assert(q < 0x1_0000_0000);
    assert(elapsed_ms(t0, t1) == q);
    assert((q < timeout) == (d < timeout * 1_000_000)) by (nonlinear_arith)
        requires
            q * 1_000_000 <= d < (q + 1) * 1_000_000,
            timeout >= 0,
    ;
}

} // verus!
