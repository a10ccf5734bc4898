//! The mode a user picks for an application: how its sound is ranked.
use vstd::prelude::*;
use crate::text::text_eq;

verus! {

/// How an application's sound takes part in ducking.
#[derive(Debug, Clone, Copy, PartialEq, Eq, Hash, Structural)]
pub enum SoundMode {
    Auto,
    Voice,
    Music,
    Other,
}

impl SoundMode {
    /// The name of the mode, as stored in settings.
    pub open spec fn name(self) -> Seq<char> {
        match self {
            SoundMode::Auto => "auto"@,
            SoundMode::Voice => "voice"@,
            SoundMode::Music => "music"@,
            SoundMode::Other => "other"@,
        }
    }

    /// The mode that `s` names, if any.
    pub open spec fn from_name(s: Seq<char>) -> Option<SoundMode> {
        if s == "auto"@ {
            Some(SoundMode::Auto)
        } else if s == "voice"@ {
            Some(SoundMode::Voice)
        } else if s == "music"@ {
            Some(SoundMode::Music)
        } else if s == "other"@ {
            Some(SoundMode::Other)
        } else {
            None
        }
    }

    /// The fixed priority of a mode: lower ranks first, `-1` keeps the
    /// application out of ducking.
    pub open spec fn base_priority_spec(self) -> i32 {
        match self {
            SoundMode::Voice => 0i32,
            SoundMode::Auto => 99i32,
            SoundMode::Music => 10i32,
            SoundMode::Other => -1i32,
        }
    }

    pub fn as_str(&self) -> (r: &'static str)
        ensures
            r@ == self.name(),
    {
        match self {
            SoundMode::Auto => "auto",
            SoundMode::Voice => "voice",
            SoundMode::Music => "music",
            SoundMode::Other => "other",
        }
    }

    pub fn from_str(s: &str) -> (r: Option<Self>)
        ensures
            r == Self::from_name(s@),
    {
        if text_eq(s, "auto") {
            Some(SoundMode::Auto)
        } else if text_eq(s, "voice") {
            Some(SoundMode::Voice)
        } else if text_eq(s, "music") {
            Some(SoundMode::Music)
        } else if text_eq(s, "other") {
            Some(SoundMode::Other)
        } else {
            None
        }
    }

    /// Base numeric priority. Lower is higher; `-1` is excluded (`Other`).
    pub fn base_priority(&self) -> (r: i32)
        ensures
            r == self.base_priority_spec(),
    {
        match self {
            SoundMode::Voice => 0,
            SoundMode::Auto => 99,
            SoundMode::Music => 10,
            SoundMode::Other => -1,
        }
    }
}

/// Reading back the name of a mode gives the mode.
pub proof fn lemma_mode_name_roundtrip(m: SoundMode)
    ensures
        SoundMode::from_name(m.name()) == Some(m),
{
    reveal_strlit("auto");
    reveal_strlit("voice");
    reveal_strlit("music");
    reveal_strlit("other");
    assert("auto"@.len() == 4);
    assert("voice"@.len() == 5);
    assert("music"@.len() == 5);
    assert("auto"@ != "voice"@);
    assert("auto"@ != "music"@);
    assert("auto"@ != "other"@);
    assert("voice"@[0] != "music"@[0]);
    assert("voice"@[0] != "other"@[0]);
    assert("music"@[0] != "other"@[0]);
    assert("auto"@[0] != "other"@[0]);
}

} // verus!
