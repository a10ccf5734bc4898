//! What the platform layer decides from plain values: the volume that the
//! system mixer tools report in their output, and the range a volume is
//! kept in.
use vstd::prelude::*;
use crate::text::{
    find, lines, trim, trim_percent, parse_i32, contains, utf8_text, decode_text, find_in,
    contains_in, parse_i32_in, trim_in, trim_percent_in, next_line, lemma_find_bounds,
};

verus! {

/// The volume reported when no mixer tool gives one.
pub const FALLBACK_VOLUME: i32 = 50;

/// `v.clamp(0, 100)`.
pub open spec fn clamp_percent_spec(v: i32) -> i32 {
    if v < 0 {
        0
    } else if v > 100 {
        100
    } else {
        v
    }
}

/// A volume kept in `0..=100`, as `i32::clamp(0, 100)` keeps it.
pub fn clamp_percent(v: i32) -> (r: i32)
    ensures
        r == clamp_percent_spec(v),
        0 <= r <= 100,
{
    if v < 0 {
        0
    } else if v > 100 {
        100
    } else {
        v
    }
}

/// The volume on one line of `amixer sget` output: the number between the
/// first `[` of the line and the first `%` after it.
pub open spec fn amixer_line(l: Seq<char>) -> Option<i32> {
    match find(l, '[') {
        Some(a) => match find(l.skip(a), '%') {
            Some(e) => match parse_i32(l.subrange(a + 1, a + e)) {
                Some(v) => Some(clamp_percent_spec(v)),
                None => None,
            },
            None => None,
        },
        None => None,
    }
}

/// The first line of `ls` that carries an `amixer` volume.
pub open spec fn amixer_first(ls: Seq<Seq<char>>) -> Option<i32>
    decreases ls.len(),
{
    if ls.len() == 0 {
        None
    } else {
        match amixer_line(ls[0]) {
            Some(v) => Some(v),
            None => amixer_first(ls.drop_first()),
        }
    }
}

/// The volume that `amixer` output (raw bytes) reports.
pub open spec fn amixer_volume(stdout: Seq<u8>) -> Option<i32> {
    match utf8_text(stdout) {
        Some(t) => amixer_first(lines(t)),
        None => None,
    }
}

pub open spec fn volume_label() -> Seq<char> {
    seq!['V', 'o', 'l', 'u', 'm', 'e', ':']
}

pub open spec fn front_left_label() -> Seq<char> {
    seq!['f', 'r', 'o', 'n', 't', '-', 'l', 'e', 'f', 't']
}

/// The field between the first and the second `/` of `l` (or the end of
/// `l`), as `l.split('/').nth(1)` gives it.
pub open spec fn second_field(l: Seq<char>) -> Option<Seq<char>> {
    match find(l, '/') {
        Some(i) => {
            let rest = l.skip(i + 1);
            match find(rest, '/') {
                Some(j) => Some(rest.take(j)),
                None => Some(rest),
            }
        },
        None => None,
    }
}

/// The volume on one line of `pactl list sinks` output: on a line that
/// holds `Volume:` and `front-left`, the second `/`-separated field,
/// trimmed and without its trailing `%`.
pub open spec fn pactl_line(l: Seq<char>) -> Option<i32> {
    if contains(l, volume_label()) && contains(l, front_left_label()) {
        match second_field(l) {
            Some(f) => match parse_i32(trim_percent(trim(f))) {
                Some(v) => Some(clamp_percent_spec(v)),
                None => None,
            },
            None => None,
        }
    } else {
        None
    }
}

/// The first line of `ls` that carries a `pactl` volume.
pub open spec fn pactl_first(ls: Seq<Seq<char>>) -> Option<i32>
    decreases ls.len(),
{
    if ls.len() == 0 {
        None
    } else {
        match pactl_line(ls[0]) {
            Some(v) => Some(v),
            None => pactl_first(ls.drop_first()),
        }
    }
}

/// The volume that `pactl` output (raw bytes) reports.
pub open spec fn pactl_volume(stdout: Seq<u8>) -> Option<i32> {
    match utf8_text(stdout) {
        Some(t) => pactl_first(lines(t)),
        None => None,
    }
}

/// The volume that `osascript` output (raw bytes) reports: the whole text,
/// trimmed, as a number.
pub open spec fn osascript_volume(stdout: Seq<u8>) -> Option<i32> {
    match utf8_text(stdout) {
        Some(t) => match parse_i32(trim(t)) {
            Some(v) => Some(clamp_percent_spec(v)),
            None => None,
        },
        None => None,
    }
}

fn amixer_in(chars: &[char], lo: usize, hi: usize) -> (r: Option<i32>)
    requires
        lo <= hi <= chars@.len(),
    ensures
        r == amixer_line(chars@.subrange(lo as int, hi as int)),
{
    let ghost l = chars@.subrange(lo as int, hi as int);
    match find_in(chars, lo, hi, '[') {
        Some(a) => {
            proof {
                lemma_find_bounds(l, '[');
                assert(l.skip(a - lo) =~= chars@.subrange(a as int, hi as int));
            }
            match find_in(chars, a, hi, '%') {
                Some(e) => {
                    proof {
                        lemma_find_bounds(chars@.subrange(a as int, hi as int), '%');
                        assert(chars@[a as int] == '[');
                        assert(chars@[e as int] == '%');
                        assert(l.subrange(a - lo + 1, a - lo + (e - a)) =~= chars@.subrange(
                            a + 1,
                            e as int,
                        ));
                    }
                    match parse_i32_in(chars, a + 1, e) {
                        Some(v) => Some(clamp_percent(v)),
                        None => None,
                    }
                },
                None => None,
            }
        },
        None => None,
    }
}

/// The system volume in `amixer sget` output, clamped to `0..=100`:
/// from the first line that has a `[`, then a `%`, with a number between
/// them. `None` where the output is not UTF-8 or no line has one.
pub fn parse_amixer_volume(stdout: &[u8]) -> (r: Option<i32>)
    ensures
        r == amixer_volume(stdout@),
        r matches Some(v) ==> 0 <= v <= 100,
{
    let chars = match decode_text(stdout) {
        Some(c) => c,
        None => return None,
    };
    let ghost t = chars@;
    assert(chars@.skip(0) =~= t);
    let mut pos: usize = 0;
    while pos < chars.len()
        invariant
            pos <= chars@.len(),
            t == chars@,
            utf8_text(stdout@) == Some(t),
            amixer_first(lines(t)) == amixer_first(lines(chars@.skip(pos as int))),
        decreases chars.len() - pos,
    {
        let (a, b, next) = next_line(chars.as_slice(), pos);
        let ghost rest = lines(chars@.skip(next as int));
        let ghost ls = seq![chars@.subrange(a as int, b as int)] + rest;
        assert(ls[0] == chars@.subrange(a as int, b as int));
        assert(ls.drop_first() =~= rest);
        match amixer_in(chars.as_slice(), a, b) {
            Some(v) => {
                return Some(v);
            },
            None => {},
        }
        pos = next;
    }
    assert(chars@.skip(pos as int) =~= Seq::<char>::empty());
    None
}

fn pactl_in(chars: &[char], lo: usize, hi: usize) -> (r: Option<i32>)
    requires
        lo <= hi <= chars@.len(),
    ensures
        r == pactl_line(chars@.subrange(lo as int, hi as int)),
{
    let ghost l = chars@.subrange(lo as int, hi as int);
    let volume = vec!['V', 'o', 'l', 'u', 'm', 'e', ':'];
    let front = vec!['f', 'r', 'o', 'n', 't', '-', 'l', 'e', 'f', 't'];
    assert(volume@ =~= volume_label());
    assert(front@ =~= front_left_label());
    if !contains_in(chars, lo, hi, volume.as_slice()) || !contains_in(
        chars,
        lo,
        hi,
        front.as_slice(),
    ) {
        return None;
    }
    let i = match find_in(chars, lo, hi, '/') {
        Some(i) => i,
        None => return None,
    };
    proof {
        lemma_find_bounds(l, '/');
        assert(l.skip(i - lo + 1) =~= chars@.subrange(i + 1, hi as int));
    }
    let ghost rest = chars@.subrange(i + 1, hi as int);
    let field_end = match find_in(chars, i + 1, hi, '/') {
        Some(j) => {
            proof {
                lemma_find_bounds(rest, '/');
                assert(rest.take(j - (i + 1)) =~= chars@.subrange(i + 1, j as int));
            }
            j
        },
        None => hi,
    };
    let (a, b) = trim_in(chars, i + 1, field_end);
    let c = trim_percent_in(chars, a, b);
    match parse_i32_in(chars, a, c) {
        Some(v) => Some(clamp_percent(v)),
        None => None,
    }
}

/// The system volume in `pactl list sinks` output, clamped to `0..=100`:
/// from the first line that holds `Volume:` and `front-left` and whose
/// second `/`-separated field, trimmed and without trailing `%`, is a
/// number. `None` where the output is not UTF-8 or no line has one.
pub fn parse_pactl_volume(stdout: &[u8]) -> (r: Option<i32>)
    ensures
        r == pactl_volume(stdout@),
        r matches Some(v) ==> 0 <= v <= 100,
{
    let chars = match decode_text(stdout) {
        Some(c) => c,
        None => return None,
    };
    let ghost t = chars@;
    assert(chars@.skip(0) =~= t);
    let mut pos: usize = 0;
    while pos < chars.len()
        invariant
            pos <= chars@.len(),
            t == chars@,
            utf8_text(stdout@) == Some(t),
            pactl_first(lines(t)) == pactl_first(lines(chars@.skip(pos as int))),
        decreases chars.len() - pos,
    {
        let (a, b, next) = next_line(chars.as_slice(), pos);
        let ghost rest = lines(chars@.skip(next as int));
        let ghost ls = seq![chars@.subrange(a as int, b as int)] + rest;
        assert(ls[0] == chars@.subrange(a as int, b as int));
        assert(ls.drop_first() =~= rest);
        match pactl_in(chars.as_slice(), a, b) {
            Some(v) => {
                return Some(v);
            },
            None => {},
        }
        pos = next;
    }
    assert(chars@.skip(pos as int) =~= Seq::<char>::empty());
    None
}

/// The system volume in `osascript` output, clamped to `0..=100`: the
/// whole output, trimmed, as a number. `None` where the output is not
/// UTF-8 or not a number.
pub fn parse_osascript_volume(stdout: &[u8]) -> (r: Option<i32>)
    ensures
        r == osascript_volume(stdout@),
        r matches Some(v) ==> 0 <= v <= 100,
{
    let chars = match decode_text(stdout) {
        Some(c) => c,
        None => return None,
    };
    assert(chars@.subrange(0, chars@.len() as int) =~= chars@);
    let (a, b) = trim_in(chars.as_slice(), 0, chars.len());
    match parse_i32_in(chars.as_slice(), a, b) {
        Some(v) => Some(clamp_percent(v)),
        None => None,
    }
}

/// The per-application volume control. No platform that this library
/// builds for offers one through a public interface, so setting an
/// application's volume changes nothing.
pub struct AudioController;

impl AudioController {
    /// Sets the volume of the application with process id `pid`; a no-op
    /// where the platform has no per-application control.
    pub fn set_app_volume(_pid: u32, _volume: i32) {
    }
}

} // verus!
