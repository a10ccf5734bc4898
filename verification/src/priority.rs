//! Ranking of sessions for ducking: which sessions take part, in which
//! order, and which one speaks.
use vstd::prelude::*;
use crate::sound_mode::SoundMode;
use crate::sound_type::{SoundType, AppSession};
use crate::settings::Settings;
use crate::platform::{clamp_percent, clamp_percent_spec};

verus! {

/// The rank of a session with mode `mode` that currently plays
/// `resolved`: lower ranks first, `-1` keeps it out of ducking.
pub open spec fn priority_of(mode: SoundMode, resolved: SoundType) -> i32 {
    match mode {
        SoundMode::Other => -1i32,
        SoundMode::Voice => 0i32,
        SoundMode::Music => 10i32,
        SoundMode::Auto => match resolved {
            SoundType::Voice => 1i32,
            SoundType::Music => 10i32,
            SoundType::Noise => 15i32,
            SoundType::Silent => 20i32,
        },
    }
}

pub fn effective_priority(mode: SoundMode, resolved: SoundType) -> (r: i32)
    ensures
        r == priority_of(mode, resolved),
{
    match mode {
        SoundMode::Other => -1,
        SoundMode::Voice => 0,
        SoundMode::Music => 10,
        SoundMode::Auto => match resolved {
            SoundType::Voice => 1,
            SoundType::Music => 10,
            SoundType::Noise => 15,
            SoundType::Silent => 20,
        },
    }
}

/// A session excluded from ducking is exactly one in `Other` mode; a
/// session in `Voice` mode ranks ahead of every other taking part, and a
/// session heard speaking in `Auto` mode ranks no later than any other
/// taking part that is not in `Voice` mode.
pub proof fn lemma_priority_order(m: SoundMode, t: SoundType, m2: SoundMode, t2: SoundType)
    ensures
        (priority_of(m, t) < 0) <==> (m == SoundMode::Other),
        m == SoundMode::Voice && m2 != SoundMode::Other ==> priority_of(m, t) <= priority_of(
            m2,
            t2,
        ),
        m == SoundMode::Auto && t == SoundType::Voice && m2 != SoundMode::Other && m2
            != SoundMode::Voice ==> priority_of(m, t) <= priority_of(m2, t2),
{
}

/// The rank of `s`.
pub open spec fn session_priority(s: AppSession) -> i32 {
    priority_of(s.sound_mode, s.sound_type)
}

/// `a` comes before `b`: lower rank, or the same rank and an earlier
/// session.
pub open spec fn ranked_before(a: (usize, i32), b: (usize, i32)) -> bool {
    a.1 < b.1 || (a.1 == b.1 && a.0 < b.0)
}

/// `order` lists, as (index, rank), exactly the sessions of `sessions`
/// that take part in ducking, by rank, sessions of equal rank in session
/// order.
pub open spec fn is_duck_order(sessions: Seq<AppSession>, order: Seq<(usize, i32)>) -> bool {
    &&& forall|j: int, k: int| 0 <= j < k < order.len() ==> ranked_before(order[j], order[k])
    &&& forall|j: int|
        0 <= j < order.len() ==> {
            &&& (#[trigger] order[j]).0 < sessions.len()
            &&& order[j].1 == session_priority(sessions[order[j].0 as int])
            &&& order[j].1 >= 0
        }
    &&& forall|i: int|
        0 <= i < sessions.len() && session_priority(#[trigger] sessions[i]) >= 0 ==> exists|j: int|
            0 <= j < order.len() && order[j].0 == i
}

/// `order` is sorted: each entry comes before every later one.
pub open spec fn rank_sorted(order: Seq<(usize, i32)>) -> bool {
    forall|j: int, k: int| 0 <= j < k < order.len() ==> ranked_before(order[j], order[k])
}

/// Inserts (`i`, `p`) into the sorted `order`, whose indices are all below
/// `i`: after every entry of rank `p` or lower.
pub fn insert_ranked(order: &mut Vec<(usize, i32)>, i: usize, p: i32)
    requires
        rank_sorted(old(order)@),
        forall|j: int| 0 <= j < old(order)@.len() ==> (#[trigger] old(order)@[j]).0 < i,
    ensures
        rank_sorted(final(order)@),
        exists|pos: int|
            0 <= pos <= old(order)@.len() && final(order)@ == old(order)@.insert(pos, (i, p)),
{
    let mut pos: usize = 0;
    while pos < order.len() && order[pos].1 <= p
        invariant
            0 <= pos <= order@.len(),
            forall|j: int| 0 <= j < pos ==> order@[j].1 <= p,
        decreases order@.len() - pos,
    {
        pos = pos + 1;
    }
    let ghost old_order = order@;
    order.insert(pos, (i, p));
    assert forall|j: int, k: int| 0 <= j < k < order@.len() implies ranked_before(
        order@[j],
        order@[k],
    ) by {
        if k < pos {
        } else if j < pos && k == pos {
        } else if j < pos {
            assert(order@[k] == old_order[k - 1]);
        } else if j == pos {
            assert(order@[k] == old_order[k - 1]);
            assert(old_order[pos as int].1 > p);
            if k - 1 > pos {
                assert(ranked_before(old_order[pos as int], old_order[k - 1]));
            }
        } else {
            assert(order@[j] == old_order[j - 1]);
            assert(order@[k] == old_order[k - 1]);
        }
    }
}

/// The sessions that take part in ducking, as (index, rank), sorted by
/// rank; sessions of equal rank keep their order.
pub fn duck_order(sessions: &[AppSession]) -> (r: Vec<(usize, i32)>)
    ensures
        is_duck_order(sessions@, r@),
{
    let mut order: Vec<(usize, i32)> = Vec::new();
    let n = sessions.len();
    let mut i: usize = 0;
    while i < n
        invariant
            n == sessions@.len(),
            0 <= i <= n,
            rank_sorted(order@),
            forall|j: int|
                0 <= j < order@.len() ==> {
                    &&& (#[trigger] order@[j]).0 < i
                    &&& order@[j].1 == session_priority(sessions@[order@[j].0 as int])
                    &&& order@[j].1 >= 0
                },
            forall|q: int|
                0 <= q < i && session_priority(#[trigger] sessions@[q]) >= 0 ==> exists|j: int|
                    0 <= j < order@.len() && order@[j].0 == q,
        decreases n - i,
    {
        let p = effective_priority(sessions[i].sound_mode, sessions[i].sound_type);
        if p >= 0 {
            let ghost old_order = order@;
            insert_ranked(&mut order, i, p);
            proof {
                let pos = choose|pos: int|
                    0 <= pos <= old_order.len() && order@ == old_order.insert(pos, (i, p));
                assert forall|q: int|
                    0 <= q < i + 1 && session_priority(#[trigger] sessions@[q]) >= 0 implies exists|
                        j: int,
                    |
                        0 <= j < order@.len() && order@[j].0 == q by {
                    if q == i {
                        assert(order@[pos].0 == q);
                    } else {
                        let j0 = choose|j: int| 0 <= j < old_order.len() && old_order[j].0 == q;
                        if j0 < pos {
                            assert(order@[j0].0 == q);
                        } else {
                            assert(order@[j0 + 1].0 == q);
                        }
                    }
                }
                assert forall|j: int| 0 <= j < order@.len() implies {
                    &&& (#[trigger] order@[j]).0 < i + 1
                    &&& order@[j].1 == session_priority(sessions@[order@[j].0 as int])
                    &&& order@[j].1 >= 0
                } by {
                    if j < pos {
                        assert(order@[j] == old_order[j]);
                    } else if j > pos {
                        assert(order@[j] == old_order[j - 1]);
                    }
                }
            }
        }
        i = i + 1;
    }
    order
}

/// `s` counts as the speaking session: heard or set as voice, and audible.
pub open spec fn is_voice_source(s: AppSession) -> bool {
    (s.sound_type == SoundType::Voice || s.sound_mode == SoundMode::Voice) && s.peak_level > 0
}

/// The volume and peak level (at least 1) of the first session in `order`
/// that speaks, if any.
pub open spec fn voice_of(sessions: Seq<AppSession>, order: Seq<(usize, i32)>) -> Option<(i32, i32)>
    decreases order.len(),
{
    if order.len() == 0 {
        None
    } else {
        let s = sessions[order[0].0 as int];
        if is_voice_source(s) {
            Some((s.volume, if s.peak_level >= 1 { s.peak_level } else { 1 }))
        } else {
            voice_of(sessions, order.drop_first())
        }
    }
}

/// The speaking session that others duck under: the first in `order` that
/// is heard or set as voice and is audible, as (volume, peak level).
pub fn find_voice(sessions: &[AppSession], order: &[(usize, i32)]) -> (r: Option<(i32, i32)>)
    requires
        forall|j: int| 0 <= j < order@.len() ==> (#[trigger] order@[j]).0 < sessions@.len(),
    ensures
        r == voice_of(sessions@, order@),
{
    let mut j: usize = 0;
    assert(order@.skip(0) =~= order@);
    while j < order.len()
        invariant
            0 <= j <= order@.len(),
            forall|q: int| 0 <= q < order@.len() ==> (#[trigger] order@[q]).0 < sessions@.len(),
            voice_of(sessions@, order@) == voice_of(sessions@, order@.skip(j as int)),
        decreases order@.len() - j,
    {
        proof {
            assert(order@.skip(j as int).drop_first() =~= order@.skip(j + 1));
            assert(order@.skip(j as int)[0] == order@[j as int]);
        }
        let s = &sessions[order[j].0];
        if (s.sound_type == SoundType::Voice || s.sound_mode == SoundMode::Voice) && s.peak_level
            > 0 {
            let peak = if s.peak_level >= 1 {
                s.peak_level
            } else {
                1
            };
            return Some((s.volume, peak));
        }
        j = j + 1;
    }
    None
}

/// What the ducking loop works from: the ranked sessions and the session
/// that speaks.
pub struct DuckPlan {
    pub order: Vec<(usize, i32)>,
    pub voice: Option<(i32, i32)>,
}

/// Ranks `sessions` and finds the speaking one.
pub fn plan_ducking(sessions: &[AppSession]) -> (r: DuckPlan)
    ensures
        is_duck_order(sessions@, r.order@),
        r.voice == voice_of(sessions@, r.order@),
{
    let order = duck_order(sessions);
    let voice = find_voice(sessions, order.as_slice());
    DuckPlan { order, voice }
}

/// The volume (in percent) a session is ducked from and recovers to: the
/// volume the user set for its application, else its current volume, kept
/// in `0..=100`.
pub fn base_volume_percent(settings: &Settings, session: &AppSession) -> (r: i32)
    requires
        settings.wf(),
    ensures
        r == (if settings.apps().contains_key(session.name@) {
            clamp_percent_spec(settings.apps()[session.name@].user_volume)
        } else {
            clamp_percent_spec(session.volume)
        }),
{
    match settings.get(session.name.as_str()) {
        Some(cfg) => clamp_percent(cfg.user_volume),
        None => clamp_percent(session.volume),
    }
}

/// Whether a session that was ducked `elapsed_ms` ago has waited out the
/// recovery time and goes back to full volume.
pub fn recovery_done(elapsed_ms: u128, settings: &Settings) -> (r: bool)
    ensures
        r == (elapsed_ms > settings.params().recovery_ms as u128),
{
    elapsed_ms > settings.runtime().recovery_ms_u128()
}

/// What one ranked session does this tick.
#[derive(Debug, Clone, Copy, PartialEq, Eq, Structural)]
pub enum DuckStep {
    /// The first in rank plays at full volume.
    Lead,
    /// Ducked under the speaking session.
    Duck,
    /// Back to full volume: the recovery time has passed since the last
    /// duck.
    Restore,
    /// Recovering from the last duck, part of the way back.
    Recover,
}

pub open spec fn duck_step_spec(rank: usize, voice_active: bool, recovered: bool) -> DuckStep {
    if rank == 0 {
        DuckStep::Lead
    } else if voice_active {
        DuckStep::Duck
    } else if recovered {
        DuckStep::Restore
    } else {
        DuckStep::Recover
    }
}

/// The step for the session at position `rank` of the ducking order: the
/// first leads; the others duck while someone speaks, and otherwise
/// recover, fully once `elapsed_ms` since their last duck exceeds the
/// recovery time.
pub fn duck_step(rank: usize, voice_active: bool, elapsed_ms: u128, settings: &Settings) -> (r:
    DuckStep)
    ensures
        r == duck_step_spec(
            rank,
            voice_active,
            elapsed_ms > settings.params().recovery_ms as u128,
        ),
{
    if rank == 0 {
        DuckStep::Lead
    } else if voice_active {
        DuckStep::Duck
    } else if recovery_done(elapsed_ms, settings) {
        DuckStep::Restore
    } else {
        DuckStep::Recover
    }
}

/// The session ranked first is never ducked, and while someone speaks
/// every other session is.
pub proof fn lemma_leader_never_ducked(rank: usize, voice_active: bool, recovered: bool)
    ensures
        rank == 0 ==> duck_step_spec(rank, voice_active, recovered) == DuckStep::Lead,
        rank > 0 && voice_active ==> duck_step_spec(rank, voice_active, recovered)
            == DuckStep::Duck,
{
}

/// Outside `Auto` mode the rank of a session is the base priority of its
/// mode, whatever it plays; in `Auto` mode speech ranks before music,
/// music before noise, noise before silence, and all of them after
/// `Voice` mode and at or before `Music` mode only for speech.
pub proof fn lemma_priority_by_mode(m: SoundMode, t: SoundType, t2: SoundType)
    ensures
        m != SoundMode::Auto ==> priority_of(m, t) == m.base_priority_spec(),
        m != SoundMode::Auto ==> priority_of(m, t) == priority_of(m, t2),
        priority_of(SoundMode::Auto, SoundType::Voice) < priority_of(SoundMode::Auto, SoundType::Music),
        priority_of(SoundMode::Auto, SoundType::Music) < priority_of(SoundMode::Auto, SoundType::Noise),
        priority_of(SoundMode::Auto, SoundType::Noise) < priority_of(
            SoundMode::Auto,
            SoundType::Silent,
        ),
        priority_of(SoundMode::Voice, t) < priority_of(SoundMode::Auto, t2),
        priority_of(SoundMode::Auto, SoundType::Music) == priority_of(SoundMode::Music, t2),
        priority_of(SoundMode::Other, t) < 0 <= priority_of(SoundMode::Auto, t2),
{
}

/// The session ranked `j`-th that speaks, with none ranked before it that
/// does, is the speaker: its volume and peak level. A session counts as
/// speaking when it is audible (peak level above zero) and is heard as
/// voice or set to `Voice` mode, whatever the classifier reports for a
/// session in `Voice` mode.
pub proof fn lemma_first_audible_voice_speaks(
    sessions: Seq<AppSession>,
    order: Seq<(usize, i32)>,
    j: int,
)
    requires
        forall|q: int| 0 <= q < order.len() ==> (#[trigger] order[q]).0 < sessions.len(),
        0 <= j < order.len(),
        ({
            let s = sessions[order[j].0 as int];
            (s.sound_type == SoundType::Voice || s.sound_mode == SoundMode::Voice) && s.peak_level
                > 0
        }),
        forall|k: int|
            #![trigger order[k]]
            0 <= k < j ==> {
                let s = sessions[order[k].0 as int];
                !((s.sound_type == SoundType::Voice || s.sound_mode == SoundMode::Voice)
                    && s.peak_level > 0)
            },
    ensures
        voice_of(sessions, order) == Some(
            (sessions[order[j].0 as int].volume, sessions[order[j].0 as int].peak_level),
        ),
    decreases j,
{
    if j > 0 {
        let rest = order.drop_first();
        assert forall|q: int| 0 <= q < rest.len() implies (#[trigger] rest[q]).0 < sessions.len() by {
            assert(rest[q] == order[q + 1]);
        }
        assert forall|k: int| #![trigger rest[k]] 0 <= k < j - 1 implies {
            let s = sessions[rest[k].0 as int];
            !((s.sound_type == SoundType::Voice || s.sound_mode == SoundMode::Voice)
                && s.peak_level > 0)
        } by {
            assert(rest[k] == order[k + 1]);
        }
        assert(rest[j - 1] == order[j]);
        assert(order[0] == order[0]);
        lemma_first_audible_voice_speaks(sessions, rest, j - 1);
    }
}

/// Where no session in the ducking order is audible and heard as voice or
/// set to `Voice` mode, there is no speaker.
pub proof fn lemma_no_audible_voice_no_speaker(sessions: Seq<AppSession>, order: Seq<(usize, i32)>)
    requires
        forall|k: int|
            #![trigger order[k]]
            0 <= k < order.len() ==> {
                let s = sessions[order[k].0 as int];
                !((s.sound_type == SoundType::Voice || s.sound_mode == SoundMode::Voice)
                    && s.peak_level > 0)
            },
    ensures
        voice_of(sessions, order) is None,
    decreases order.len(),
{
    if order.len() > 0 {
        let rest = order.drop_first();
        assert(order[0] == order[0]);
        assert forall|k: int| #![trigger rest[k]] 0 <= k < rest.len() implies {
            let s = sessions[rest[k].0 as int];
            !((s.sound_type == SoundType::Voice || s.sound_mode == SoundMode::Voice)
                && s.peak_level > 0)
        } by {
            assert(rest[k] == order[k + 1]);
        }
        lemma_no_audible_voice_no_speaker(sessions, rest);
    }
}

} // verus!
