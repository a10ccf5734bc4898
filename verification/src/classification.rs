//! Smoothing of per-frame classifications by a vote over recent frames.
use vstd::prelude::*;
use crate::sound_type::SoundType;

verus! {

/// The outcome of a vote: the two types heard most, and how often.
#[derive(Debug, Clone, Copy, PartialEq, Eq, Structural)]
pub struct ClassificationResult {
    pub primary: SoundType,
    pub secondary: SoundType,
    pub primary_votes: usize,
    pub secondary_votes: usize,
}

/// How many entries of `h` are `t`.
pub open spec fn votes(h: Seq<SoundType>, t: SoundType) -> nat
    decreases h.len(),
{
    if h.len() == 0 {
        0
    } else {
        votes(h.drop_last(), t) + if h.last() == t {
            1nat
        } else {
            0nat
        }
    }
}

/// The order in which ties are broken: `Silent`, `Voice`, `Music`, `Noise`.
pub open spec fn tie_rank(t: SoundType) -> int {
    match t {
        SoundType::Silent => 0,
        SoundType::Voice => 1,
        SoundType::Music => 2,
        SoundType::Noise => 3,
    }
}

/// `t` has the most votes among the types other than `ex`, and comes first
/// in tie order among those with as many.
pub open spec fn leads(h: Seq<SoundType>, t: SoundType, ex: Option<SoundType>) -> bool {
    &&& ex != Some(t)
    &&& forall|u: SoundType| ex != Some(u) ==> votes(h, u) <= votes(h, t)
    &&& forall|u: SoundType| ex != Some(u) && votes(h, u) == votes(h, t) ==> tie_rank(t)
        <= tie_rank(u)
}

/// The result of a vote over `h`, as sorting the four counts in
/// descending order (stably, in tie order) and taking the first two gives
/// it; an empty history votes for nothing.
pub open spec fn vote_spec(h: Seq<SoundType>, r: ClassificationResult) -> bool {
    if h.len() == 0 {
        r == ClassificationResult {
            primary: SoundType::Silent,
            secondary: SoundType::Silent,
            primary_votes: 0,
            secondary_votes: 0,
        }
    } else {
        &&& leads(h, r.primary, None)
        &&& leads(h, r.secondary, Some(r.primary))
        &&& r.primary_votes == votes(h, r.primary)
        &&& r.secondary_votes == votes(h, r.secondary)
    }
}

proof fn lemma_votes_bound(h: Seq<SoundType>, t: SoundType)
    ensures
        votes(h, t) <= h.len(),
    decreases h.len(),
{
    if h.len() > 0 {
        lemma_votes_bound(h.drop_last(), t);
    }
}

/// The earlier of `a` and `b` in a scan that keeps the first maximum.
fn better(a: SoundType, ca: usize, b: SoundType, cb: usize) -> (r: (SoundType, usize))
    ensures
        r == (if cb > ca {
            (b, cb)
        } else {
            (a, ca)
        }),
{
    if cb > ca {
        (b, cb)
    } else {
        (a, ca)
    }
}

/// Smooths the recent frame classifications: the most frequent type and
/// the runner-up, ties going to the earlier of `Silent`, `Voice`, `Music`,
/// `Noise`.
pub fn majority_vote(history: &std::collections::VecDeque<SoundType>) -> (r: ClassificationResult)
    ensures
        vote_spec(history@, r),
        r.primary_votes >= r.secondary_votes,
        r.primary_votes + r.secondary_votes <= history@.len(),
{
    let n = history.len();
    if n == 0 {
        return ClassificationResult {
            primary: SoundType::Silent,
            secondary: SoundType::Silent,
            primary_votes: 0,
            secondary_votes: 0,
        };
    }
    let mut c0: usize = 0;
    let mut c1: usize = 0;
    let mut c2: usize = 0;
    let mut c3: usize = 0;
    let mut i: usize = 0;
    while i < n
        invariant
            n == history@.len(),
            0 <= i <= n,
            c0 == votes(history@.take(i as int), SoundType::Silent),
            c1 == votes(history@.take(i as int), SoundType::Voice),
            c2 == votes(history@.take(i as int), SoundType::Music),
            c3 == votes(history@.take(i as int), SoundType::Noise),
            c0 + c1 + c2 + c3 == i,
        decreases n - i,
    {
        let t = history[i];
        proof {
            assert(history@.take(i + 1).drop_last() =~= history@.take(i as int));
        }
        match t {
            SoundType::Silent => c0 = c0 + 1,
            SoundType::Voice => c1 = c1 + 1,
            SoundType::Music => c2 = c2 + 1,
            SoundType::Noise => c3 = c3 + 1,
        }
        i = i + 1;
    }
    let ghost h = history@;
    assert(h.take(n as int) =~= h);
    // First place: the first maximum in tie order.
    let (p, pv) = better(SoundType::Silent, c0, SoundType::Voice, c1);
    let (p, pv) = better(p, pv, SoundType::Music, c2);
    let (p, pv) = better(p, pv, SoundType::Noise, c3);
    // Second place: the same scan without the winner.
    let mut first = true;
    let mut s = SoundType::Silent;
    let mut sv: usize = 0;
    let cands = [
        (SoundType::Silent, c0),
        (SoundType::Voice, c1),
        (SoundType::Music, c2),
        (SoundType::Noise, c3),
    ];
    let mut k: usize = 0;
    while k < 4
        invariant
            0 <= k <= 4,
            cands@ == seq![
                (SoundType::Silent, c0),
                (SoundType::Voice, c1),
                (SoundType::Music, c2),
                (SoundType::Noise, c3),
            ],
            first == (forall|j: int| 0 <= j < k ==> cands@[j].0 == p),
            !first ==> s != p && exists|j: int| 0 <= j < k && cands@[j] == (s, sv),
            forall|j: int|
                0 <= j < k && cands@[j].0 != p ==> cands@[j].1 <= sv && (cands@[j].1 == sv
                    ==> tie_rank(s) <= tie_rank(cands@[j].0)),
            !first ==> forall|j: int| 0 <= j < 4 && cands@[j].0 == s ==> tie_rank(s) == j,
        decreases 4 - k,
    {
        let (t, c) = cands[k];
        if t != p {
            if first || c > sv {
                s = t;
                sv = c;
                first = false;
            }
        }
        k = k + 1;
    }
    proof {
        lemma_votes_bound(h, SoundType::Silent);
        assert(forall|u: SoundType| #[trigger] votes(h, u) == cands@[tie_rank(u)].1);
    }
    ClassificationResult { primary: p, secondary: s, primary_votes: pv, secondary_votes: sv }
}

} // verus!
