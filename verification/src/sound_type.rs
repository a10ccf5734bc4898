//! What an application plays, per tick and resolved over a window, and the
//! session record the ducking loop works on.
use vstd::prelude::*;
use crate::sound_mode::SoundMode;

verus! {

/// The kind of sound a session plays.
#[derive(Debug, Clone, Copy, PartialEq, Eq, Structural)]
pub enum SoundType {
    Silent,
    Voice,
    Music,
    Noise,
}

impl SoundType {
    pub open spec fn name(self) -> Seq<char> {
        match self {
            SoundType::Silent => "none"@,
            SoundType::Voice => "voice"@,
            SoundType::Music => "music"@,
            SoundType::Noise => "noise"@,
        }
    }

    pub fn as_str(&self) -> (r: &'static str)
        ensures
            r@ == self.name(),
    {
        match self {
            SoundType::Silent => "none",
            SoundType::Voice => "voice",
            SoundType::Music => "music",
            SoundType::Noise => "noise",
        }
    }
}

/// One application's audio session, as the platform layer reports it.
#[derive(Debug, Clone)]
pub struct AppSession {
    pub pid: u32,
    pub name: String,
    pub volume: i32,
    pub effective_volume: i32,
    pub is_muted: bool,
    pub peak_level: i32,
    pub sound_type: SoundType,
    pub sound_mode: SoundMode,
}

/// The type that a window of tick results resolves to: `Voice` if any tick
/// heard voice, else `Music` if any heard music, else `Noise` if any heard
/// noise, else `None`.
pub open spec fn resolve_spec(s: Seq<SoundType>) -> SoundType {
    if s.contains(SoundType::Voice) {
        SoundType::Voice
    } else if s.contains(SoundType::Music) {
        SoundType::Music
    } else if s.contains(SoundType::Noise) {
        SoundType::Noise
    } else {
        SoundType::Silent
    }
}

/// `max(period_ms / tick_ms, 1)`: how many ticks a window holds.
pub open spec fn window_capacity(period_ms: u32, tick_ms: u32) -> nat
    recommends
        tick_ms > 0,
{
    if period_ms / tick_ms >= 1 {
        (period_ms / tick_ms) as nat
    } else {
        1
    }
}

/// `s` after appending `v` and keeping at most `cap` of the newest values.
pub open spec fn push_window(s: Seq<SoundType>, v: SoundType, cap: nat) -> Seq<SoundType> {
    let t = s.push(v);
    if t.len() > cap {
        t.skip(t.len() - cap)
    } else {
        t
    }
}

/// A sliding window of the latest tick results of one application.
pub struct SoundTypeBuffer {
    buffer: std::collections::VecDeque<SoundType>,
    capacity: usize,
    period_ms: u32,
}

impl View for SoundTypeBuffer {
    type V = Seq<SoundType>;

    closed spec fn view(&self) -> Seq<SoundType> {
        self.buffer@
    }
}

impl SoundTypeBuffer {
    /// How many values the window keeps.
    pub closed spec fn capacity(&self) -> nat {
        self.capacity as nat
    }

    pub closed spec fn period(&self) -> u32 {
        self.period_ms
    }

    /// The window never holds more than its capacity, which is positive.
    pub closed spec fn wf(&self) -> bool {
        &&& self.capacity >= 1
        &&& self.buffer@.len() <= self.capacity
    }

    fn window_len(period_ms: u32, tick_ms: u32) -> (r: usize)
        requires
            tick_ms > 0,
        ensures
            r == window_capacity(period_ms, tick_ms),
    {
        let q = period_ms / tick_ms;
        if q >= 1 {
            q as usize
        } else {
            1
        }
    }

    pub fn new(period_ms: u32, tick_ms: u32) -> (r: Self)
        requires
            tick_ms > 0,
        ensures
            r.wf(),
            r@ == Seq::<SoundType>::empty(),
            r.capacity() == window_capacity(period_ms, tick_ms),
            r.period() == period_ms,
    {
        let capacity = Self::window_len(period_ms, tick_ms);
        SoundTypeBuffer {
            buffer: std::collections::VecDeque::with_capacity(capacity),
            capacity,
            period_ms,
        }
    }

    /// Appends `value`, dropping the oldest value when the window is full.
    pub fn push(&mut self, value: SoundType)
        requires
            old(self).wf(),
        ensures
            final(self).wf(),
            final(self)@ == push_window(old(self)@, value, old(self).capacity()),
            final(self).capacity() == old(self).capacity(),
            final(self).period() == old(self).period(),
    {
        let ghost s = self.buffer@;
        if self.buffer.len() >= self.capacity {
            self.buffer.pop_front();
        }
        self.buffer.push_back(value);
        proof {
            let t = s.push(value);
            if t.len() > self.capacity {
                assert(self.buffer@ =~= t.skip(t.len() - self.capacity));
            }
        }
    }

    pub fn len(&self) -> (r: usize)
        ensures
            r == self@.len(),
    {
        self.buffer.len()
    }

    pub fn is_full(&self) -> (r: bool)
        ensures
            r == (self@.len() >= self.capacity()),
    {
        self.buffer.len() >= self.capacity
    }

    /// The type the window resolves to; `None` for an empty window.
    pub fn resolve(&self) -> (r: SoundType)
        ensures
            r == resolve_spec(self@),
    {
        if self.buffer.len() == 0 {
            return SoundType::Silent;
        }
        if self.holds(SoundType::Voice) {
            return SoundType::Voice;
        }
        if self.holds(SoundType::Music) {
            return SoundType::Music;
        }
        if self.holds(SoundType::Noise) {
            return SoundType::Noise;
        }
        SoundType::Silent
    }

    fn holds(&self, t: SoundType) -> (r: bool)
        ensures
            r == self@.contains(t),
    {
        let n = self.buffer.len();
        let mut i: usize = 0;
        while i < n
            invariant
                n == self.buffer@.len(),
                0 <= i <= n,
                forall|k: int| 0 <= k < i ==> self.buffer@[k] != t,
            decreases n - i,
        {
            if self.buffer[i] == t {
                assert(self.buffer@[i as int] == t);
                return true;
            }
            i = i + 1;
        }
        false
    }

    pub fn period_ms(&self) -> (r: u32)
        ensures
            r == self.period(),
    {
        self.period_ms
    }

    /// Changes the window length, dropping the oldest values that no
    /// longer fit.
    pub fn set_period_ms(&mut self, period_ms: u32, tick_ms: u32)
        requires
            old(self).wf(),
            tick_ms > 0,
        ensures
            final(self).wf(),
            final(self).period() == period_ms,
            final(self).capacity() == window_capacity(period_ms, tick_ms),
            final(self)@ == (if old(self)@.len() > final(self).capacity() {
                old(self)@.skip(old(self)@.len() - final(self).capacity())
            } else {
                old(self)@
            }),
    {
        self.period_ms = period_ms;
        let new_capacity = Self::window_len(period_ms, tick_ms);
        self.capacity = new_capacity;
        let ghost s = self.buffer@;
        while self.buffer.len() > self.capacity
            invariant
                self.capacity == new_capacity,
                self.period_ms == period_ms,
                new_capacity >= 1,
                self.buffer@.len() == s.len() || self.buffer@.len() >= new_capacity,
                s.len() >= self.buffer@.len(),
                self.buffer@ == s.skip(s.len() - self.buffer@.len()),
            decreases self.buffer@.len(),
        {
            self.buffer.pop_front();
            proof {
                assert(self.buffer@ =~= s.skip(s.len() - self.buffer@.len()));
            }
        }
        assert(s.skip(0) =~= s);
    }
}

/// The window holds the newest values pushed, in order, and never more
/// than its capacity: pushing `vs` one by one leaves exactly the last
/// `capacity` of (old contents followed by `vs`).
pub proof fn lemma_window_keeps_newest(s: Seq<SoundType>, vs: Seq<SoundType>, cap: nat)
    requires
        cap >= 1,
        s.len() <= cap,
    ensures
        push_all(s, vs, cap) == (if (s + vs).len() > cap {
            (s + vs).skip((s + vs).len() - cap)
        } else {
            s + vs
        }),
    decreases vs.len(),
{
    if vs.len() > 0 {
        let s1 = push_window(s, vs[0], cap);
        lemma_window_keeps_newest(s1, vs.drop_first(), cap);
        let full = s + vs;
        let full1 = s1 + vs.drop_first();
        if s.push(vs[0]).len() > cap {
            assert(full1 =~= full.skip(1));
        } else {
            assert(full1 =~= full);
        }
    } else {
        assert(s + vs =~= s);
    }
}

/// The window after pushing each value of `vs` in turn.
pub open spec fn push_all(s: Seq<SoundType>, vs: Seq<SoundType>, cap: nat) -> Seq<SoundType>
    decreases vs.len(),
{
    if vs.len() == 0 {
        s
    } else {
        push_all(push_window(s, vs[0], cap), vs.drop_first(), cap)
    }
}

/// Resolving ignores where in the window a type was heard: any tick heard
/// as voice makes the window voice; failing that, any music makes it music;
/// failing that, any noise makes it noise; otherwise it is silent.
pub proof fn lemma_resolve_any_tick(s: Seq<SoundType>, i: int)
    requires
        0 <= i < s.len(),
    ensures
        s[i] == SoundType::Voice ==> resolve_spec(s) == SoundType::Voice,
        s[i] == SoundType::Music && (forall|k: int| 0 <= k < s.len() ==> s[k] != SoundType::Voice)
            ==> resolve_spec(s) == SoundType::Music,
        s[i] == SoundType::Noise && (forall|k: int|
            0 <= k < s.len() ==> s[k] != SoundType::Voice && s[k] != SoundType::Music)
            ==> resolve_spec(s) == SoundType::Noise,
        (forall|k: int| 0 <= k < s.len() ==> s[k] == SoundType::Silent) ==> resolve_spec(s)
            == SoundType::Silent,
{
    assert(s.contains(s[i]));
}

/// An empty window is silent.
pub proof fn lemma_resolve_empty()
    ensures
        resolve_spec(Seq::<SoundType>::empty()) == SoundType::Silent,
{
}

/// Once a tick is heard as voice, the window resolves to voice for as long
/// as that tick stays in it: after it, up to `cap - 1` more pushes of any
/// types still give voice.
pub proof fn lemma_voice_persists(s: Seq<SoundType>, vs: Seq<SoundType>, cap: nat)
    requires
        cap >= 1,
        s.len() <= cap,
        vs.len() < cap,
    ensures
        resolve_spec(push_all(push_window(s, SoundType::Voice, cap), vs, cap)) == SoundType::Voice,
{
    let s1 = push_window(s, SoundType::Voice, cap);
    assert(s1.len() <= cap);
    assert(s1.last() == SoundType::Voice);
    lemma_window_keeps_newest(s1, vs, cap);
    let full = s1 + vs;
    let w = push_all(s1, vs, cap);
    let iv = s1.len() - 1;
    assert(full[iv] == SoundType::Voice);
    if full.len() > cap {
        let d = full.len() - cap;
        assert(d <= iv);
        assert(w[iv - d] == full[iv]);
        lemma_resolve_any_tick(w, iv - d);
    } else {
        assert(w[iv] == full[iv]);
        lemma_resolve_any_tick(w, iv);
    }
}

} // verus!
