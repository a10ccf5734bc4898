//! Character-level text handling: decoding of command output, line
//! splitting, whitespace trimming and decimal integer parsing, each
//! stated over `Seq<char>`.
use vstd::prelude::*;
use vstd::utf8::{valid_utf8, decode_utf8};
use vstd::string::StringSliceAdditionalSpecFns;

verus! {

broadcast use vstd::utf8::group_utf8_lib;

// ---------------------------------------------------------------------------
// Specifications
// ---------------------------------------------------------------------------

/// Index of the first occurrence of `c` in `s`.
pub open spec fn find(s: Seq<char>, c: char) -> Option<int>
    decreases s.len(),
{
    if s.len() == 0 {
        None
    } else if s[0] == c {
        Some(0)
    } else {
        match find(s.drop_first(), c) {
            Some(i) => Some(i + 1),
            None => None,
        }
    }
}

/// `t` without one trailing carriage return.
pub open spec fn strip_cr(t: Seq<char>) -> Seq<char> {
    if t.len() > 0 && t.last() == '\r' {
        t.drop_last()
    } else {
        t
    }
}

/// The lines of `s` as `str::lines` yields them: pieces separated by
/// `'\n'`, a `'\r'` right before a `'\n'` removed, no empty piece after a
/// final `'\n'`.
pub open spec fn lines(s: Seq<char>) -> Seq<Seq<char>>
    decreases s.len(),
{
    if s.len() == 0 {
        Seq::empty()
    } else {
        match find(s, '\n') {
            Some(i) => {
                if 0 <= i < s.len() {
                    seq![strip_cr(s.take(i))] + lines(s.skip(i + 1))
                } else {
                    seq![s]
                }
            },
            None => seq![s],
        }
    }
}

/// `char::is_whitespace`: the Unicode `White_Space` property.
pub open spec fn is_ws(c: char) -> bool {
    let u = c as u32;
    ||| 0x09 <= u <= 0x0D
    ||| u == 0x20
    ||| u == 0x85
    ||| u == 0xA0
    ||| u == 0x1680
    ||| 0x2000 <= u <= 0x200A
    ||| u == 0x2028
    ||| u == 0x2029
    ||| u == 0x202F
    ||| u == 0x205F
    ||| u == 0x3000
}

pub open spec fn trim_start(s: Seq<char>) -> Seq<char>
    decreases s.len(),
{
    if s.len() > 0 && is_ws(s[0]) {
        trim_start(s.drop_first())
    } else {
        s
    }
}

pub open spec fn trim_end(s: Seq<char>) -> Seq<char>
    decreases s.len(),
{
    if s.len() > 0 && is_ws(s.last()) {
        trim_end(s.drop_last())
    } else {
        s
    }
}

/// `str::trim`.
pub open spec fn trim(s: Seq<char>) -> Seq<char> {
    trim_end(trim_start(s))
}

/// `str::trim_end_matches('%')`.
pub open spec fn trim_percent(s: Seq<char>) -> Seq<char>
    decreases s.len(),
{
    if s.len() > 0 && s.last() == '%' {
        trim_percent(s.drop_last())
    } else {
        s
    }
}

pub open spec fn is_digit(c: char) -> bool {
    '0' <= c <= '9'
}

pub open spec fn digit_value(c: char) -> int {
    (c as u32) - ('0' as u32)
}

pub open spec fn all_digits(d: Seq<char>) -> bool {
    forall|i: int| 0 <= i < d.len() ==> is_digit(#[trigger] d[i])
}

/// The number that the decimal digits `d` denote.
pub open spec fn digits_value(d: Seq<char>) -> int
    decreases d.len(),
{
    if d.len() == 0 {
        0
    } else {
        digits_value(d.drop_last()) * 10 + digit_value(d.last())
    }
}

/// `i32::from_str`: an optional `+` or `-`, then one or more decimal
/// digits, and a value that fits.
pub open spec fn parse_i32(s: Seq<char>) -> Option<i32> {
    if s.len() == 0 {
        None
    } else {
        let neg = s[0] == '-';
        let d = if s[0] == '-' || s[0] == '+' {
            s.drop_first()
        } else {
            s
        };
        let v = if neg {
            -digits_value(d)
        } else {
            digits_value(d)
        };
        if d.len() == 0 || !all_digits(d) || v < i32::MIN || v > i32::MAX {
            None
        } else {
            Some(v as i32)
        }
    }
}

/// `pat` occurs in `s`.
pub open spec fn contains(s: Seq<char>, pat: Seq<char>) -> bool {
    exists|i: int| 0 <= i && i + pat.len() <= s.len() && #[trigger] s.subrange(i, i + pat.len()) == pat
}

/// The text that `bytes` encode, where they are UTF-8.
pub open spec fn utf8_text(bytes: Seq<u8>) -> Option<Seq<char>> {
    if valid_utf8(bytes) {
        Some(decode_utf8(bytes))
    } else {
        None
    }
}

// ---------------------------------------------------------------------------
// Lemmas
// ---------------------------------------------------------------------------

proof fn lemma_find_absent(s: Seq<char>, c: char)
    requires
        forall|k: int| 0 <= k < s.len() ==> s[k] != c,
    ensures
        find(s, c) is None,
    decreases s.len(),
{
    if s.len() > 0 {
        lemma_find_absent(s.drop_first(), c);
    }
}

proof fn lemma_find_at(s: Seq<char>, c: char, j: int)
    requires
        0 <= j < s.len(),
        s[j] == c,
        forall|k: int| 0 <= k < j ==> s[k] != c,
    ensures
        find(s, c) == Some(j),
    decreases s.len(),
{
    if j > 0 {
        lemma_find_at(s.drop_first(), c, j - 1);
    }
}

pub proof fn lemma_find_bounds(s: Seq<char>, c: char)
    ensures
        find(s, c) matches Some(i) ==> 0 <= i < s.len() && s[i] == c && forall|k: int|
            0 <= k < i ==> s[k] != c,
    decreases s.len(),
{
    if s.len() > 0 && s[0] != c {
        lemma_find_bounds(s.drop_first(), c);
        if let Some(i) = find(s, c) {
            assert forall|k: int| 0 <= k < i implies s[k] != c by {
                if k > 0 {
                    assert(s[k] == s.drop_first()[k - 1]);
                }
            }
        }
    }
}

proof fn lemma_digits_value_nonneg(d: Seq<char>)
    requires
        all_digits(d),
    ensures
        digits_value(d) >= 0,
    decreases d.len(),
{
    if d.len() > 0 {
        assert(is_digit(d[d.len() - 1]));
        lemma_digits_value_nonneg(d.drop_last());
    }
}

proof fn lemma_digits_value_prefix(d: Seq<char>, k: int)
    requires
        all_digits(d),
        0 <= k <= d.len(),
    ensures
        digits_value(d.take(k)) <= digits_value(d),
    decreases d.len(),
{
    if k < d.len() {
        let e = d.drop_last();
        assert(is_digit(d[d.len() - 1]));
        assert(all_digits(e));
        lemma_digits_value_prefix(e, k);
        assert(e.take(k) =~= d.take(k));
        lemma_digits_value_nonneg(e);
    } else {
        assert(d.take(k) =~= d);
    }
}

proof fn lemma_trim_start_skip(s: Seq<char>, k: int)
    requires
        0 <= k <= s.len(),
        forall|j: int| 0 <= j < k ==> is_ws(s[j]),
    ensures
        trim_start(s) == trim_start(s.skip(k)),
    decreases k,
{
    if k > 0 {
        assert(s.drop_first().skip(k - 1) =~= s.skip(k));
        lemma_trim_start_skip(s.drop_first(), k - 1);
    } else {
        assert(s.skip(0) =~= s);
    }
}

proof fn lemma_trim_end_take(s: Seq<char>, k: int)
    requires
        0 <= k <= s.len(),
        forall|j: int| k <= j < s.len() ==> is_ws(s[j]),
    ensures
        trim_end(s) == trim_end(s.take(k)),
    decreases s.len() - k,
{
    if k < s.len() {
        assert(s.drop_last().take(k) =~= s.take(k));
        lemma_trim_end_take(s.drop_last(), k);
    } else {
        assert(s.take(k) =~= s);
    }
}

proof fn lemma_trim_percent_take(s: Seq<char>, k: int)
    requires
        0 <= k <= s.len(),
        forall|j: int| k <= j < s.len() ==> s[j] == '%',
    ensures
        trim_percent(s) == trim_percent(s.take(k)),
    decreases s.len() - k,
{
    if k < s.len() {
        assert(s.drop_last().take(k) =~= s.take(k));
        lemma_trim_percent_take(s.drop_last(), k);
    } else {
        assert(s.take(k) =~= s);
    }
}

// ---------------------------------------------------------------------------
// Executable functions
// ---------------------------------------------------------------------------

/// Checks that `bytes` are UTF-8 and views them as text.
///
/// Wraps `std::str::from_utf8`, which (by its documentation) succeeds
/// exactly on valid UTF-8 and returns a string slice over the same bytes.
#[verifier::external_body]
fn str_from_utf8(bytes: &[u8]) -> (r: Option<&str>)
    ensures
        r is Some <==> valid_utf8(bytes@),
        r matches Some(s) ==> s.spec_bytes() == bytes@,
{
    match std::str::from_utf8(bytes) {
        Ok(s) => Some(s),
        Err(_) => None,
    }
}

/// Decodes `bytes` as UTF-8 into characters, or `None` where they are not
/// UTF-8.
pub fn decode_text(bytes: &[u8]) -> (r: Option<Vec<char>>)
    ensures
        match r {
            Some(v) => utf8_text(bytes@) == Some(v@),
            None => utf8_text(bytes@) is None,
        },
{
    match str_from_utf8(bytes) {
        Some(s) => {
            let v = chars_of(s);
            proof {
                vstd::utf8::encode_utf8_decode_utf8(s@);
            }
            Some(v)
        },
        None => None,
    }
}

/// The characters of `s`, in order.
pub fn chars_of(s: &str) -> (r: Vec<char>)
    ensures
        r@ == s@,
{
    let mut out: Vec<char> = Vec::new();
    for c in it: s.chars()
        invariant
            out@ == it.seq().take(it.index() as int),
    {
        out.push(c);
    }
    out
}

/// Whether `a` and `b` hold the same text.
pub fn text_eq(a: &str, b: &str) -> (r: bool)
    ensures
        r == (a@ == b@),
{
    let x = chars_of(a);
    let y = chars_of(b);
    if x.len() != y.len() {
        return false;
    }
    let mut i: usize = 0;
    while i < x.len()
        invariant
            x.len() == y.len(),
            x@ == a@,
            y@ == b@,
            0 <= i <= x.len(),
            forall|k: int| 0 <= k < i ==> x@[k] == y@[k],
        decreases x.len() - i,
    {
        if x[i] != y[i] {
            return false;
        }
        i = i + 1;
    }
    assert(x@ =~= y@);
    true
}

/// `char::is_whitespace`.
pub fn char_is_ws(c: char) -> (r: bool)
    ensures
        r == is_ws(c),
{
    let u = c as u32;
    (0x09 <= u && u <= 0x0D) || u == 0x20 || u == 0x85 || u == 0xA0 || u == 0x1680 || (0x2000
        <= u && u <= 0x200A) || u == 0x2028 || u == 0x2029 || u == 0x202F || u == 0x205F || u
        == 0x3000
}

/// First index `k` in `lo..hi` with `chars[k] == c`.
pub fn find_in(chars: &[char], lo: usize, hi: usize, c: char) -> (r: Option<usize>)
    requires
        lo <= hi <= chars@.len(),
    ensures
        match r {
            Some(k) => find(chars@.subrange(lo as int, hi as int), c) == Some(k - lo) && lo <= k
                < hi,
            None => find(chars@.subrange(lo as int, hi as int), c) is None,
        },
{
    let ghost s = chars@.subrange(lo as int, hi as int);
    let mut k = lo;
    while k < hi
        invariant
            lo <= k <= hi <= chars@.len(),
            s == chars@.subrange(lo as int, hi as int),
            forall|j: int| 0 <= j < k - lo ==> s[j] != c,
        decreases hi - k,
    {
        if chars[k] == c {
            proof {
                lemma_find_at(s, c, k - lo);
            }
            return Some(k);
        }
        k = k + 1;
    }
    proof {
        lemma_find_absent(s, c);
    }
    None
}

/// Whether `pat` occurs in `chars[lo..hi]`.
pub fn contains_in(chars: &[char], lo: usize, hi: usize, pat: &[char]) -> (r: bool)
    requires
        lo <= hi <= chars@.len(),
    ensures
        r == contains(chars@.subrange(lo as int, hi as int), pat@),
{
    let ghost s = chars@.subrange(lo as int, hi as int);
    let n = pat.len();
    if n > hi - lo {
        return false;
    }
    let mut i = lo;
    while n <= hi - i
        invariant
            lo <= i <= hi,
            n == pat@.len(),
            n <= hi - lo,
            hi <= chars@.len(),
            s == chars@.subrange(lo as int, hi as int),
            forall|p: int|
                0 <= p < i - lo && p + n <= s.len() ==> #[trigger] s.subrange(p, p + n) != pat@,
        decreases hi - i,
    {
        let mut j: usize = 0;
        let mut same = true;
        while j < n
            invariant
                0 <= j <= n,
                i + n <= hi <= chars@.len(),
                n == pat@.len(),
                same == (forall|q: int| 0 <= q < j ==> chars@[i + q] == pat@[q]),
            decreases n - j,
        {
            if chars[i + j] != pat[j] {
                same = false;
            }
            j = j + 1;
        }
        if same {
            assert(s.subrange(i - lo, i - lo + n) =~= pat@);
            return true;
        }
        proof {
            assert(exists|q: int| 0 <= q < n && chars@[i + q] != pat@[q]);
            let q = choose|q: int| 0 <= q < n && chars@[i + q] != pat@[q];
            assert(s.subrange(i - lo, i - lo + n)[q] != pat@[q]);
        }
        i = i + 1;
    }
    assert forall|p: int| 0 <= p && p + pat@.len() <= s.len() implies #[trigger] s.subrange(
        p,
        p + pat@.len(),
    ) != pat@ by {
        assert(p < i - lo);
    }
    false
}

/// `chars[lo..hi]` parsed as `i32::from_str` does.
pub fn parse_i32_in(chars: &[char], lo: usize, hi: usize) -> (r: Option<i32>)
    requires
        lo <= hi <= chars@.len(),
    ensures
        r == parse_i32(chars@.subrange(lo as int, hi as int)),
{
    let ghost s = chars@.subrange(lo as int, hi as int);
    if lo == hi {
        return None;
    }
    let neg = chars[lo] == '-';
    let start = if chars[lo] == '-' || chars[lo] == '+' {
        lo + 1
    } else {
        lo
    };
    let ghost d = chars@.subrange(start as int, hi as int);
    assert(d =~= (if s[0] == '-' || s[0] == '+' {
        s.drop_first()
    } else {
        s
    }));
    if start == hi {
        return None;
    }
    // The magnitude, which may exceed i32 by one on the negative side.
    let mut acc: i64 = 0;
    let mut k = start;
    while k < hi
        invariant
            lo <= start <= k <= hi <= chars@.len(),
            d == chars@.subrange(start as int, hi as int),
            s == chars@.subrange(lo as int, hi as int),
            s.len() > 0,
            neg == (s[0] == '-'),
            d == (if s[0] == '-' || s[0] == '+' {
                s.drop_first()
            } else {
                s
            }),
            d.len() > 0,
            all_digits(d.take(k - start)),
            acc == digits_value(d.take(k - start)),
            0 <= acc <= 2147483648,
        decreases hi - k,
    {
        let c = chars[k];
        if !('0' <= c && c <= '9') {
            proof {
                assert(d[k - start] == c);
                assert(!all_digits(d));
            }
            return None;
        }
        let ghost prev = d.take(k - start);
        let ghost next = d.take(k - start + 1);
        proof {
            assert(next.drop_last() =~= prev);
            assert(next.last() == c);
            assert(all_digits(next));
        }
        let dv = (c as u32 - '0' as u32) as i64;
        acc = acc * 10 + dv;
        if acc > 2147483648 {
            proof {
                if all_digits(d) {
                    lemma_digits_value_prefix(d, k - start + 1);
                }
            }
            return None;
        }
        k = k + 1;
    }
    assert(d.take(hi - start) =~= d);
    if neg {
        Some((0 - acc) as i32)
    } else if acc > 2147483647 {
        None
    } else {
        Some(acc as i32)
    }
}

/// `chars[lo..hi]` with whitespace trimmed from both ends, as an index range.
pub fn trim_in(chars: &[char], lo: usize, hi: usize) -> (r: (usize, usize))
    requires
        lo <= hi <= chars@.len(),
    ensures
        lo <= r.0 <= r.1 <= hi,
        chars@.subrange(r.0 as int, r.1 as int) == trim(chars@.subrange(lo as int, hi as int)),
{
    let ghost s = chars@.subrange(lo as int, hi as int);
    let mut a = lo;
    while a < hi && char_is_ws(chars[a])
        invariant
            lo <= a <= hi <= chars@.len(),
            s == chars@.subrange(lo as int, hi as int),
            forall|j: int| 0 <= j < a - lo ==> is_ws(s[j]),
        decreases hi - a,
    {
        a = a + 1;
    }
    proof {
        lemma_trim_start_skip(s, a - lo);
        assert(s.skip(a - lo) =~= chars@.subrange(a as int, hi as int));
        let t = chars@.subrange(a as int, hi as int);
        if a < hi {
            assert(!is_ws(t[0]));
        }
        assert(trim_start(t) == t);
    }
    let ghost t = chars@.subrange(a as int, hi as int);
    let mut b = hi;
    while b > a && char_is_ws(chars[b - 1])
        invariant
            lo <= a <= b <= hi <= chars@.len(),
            t == chars@.subrange(a as int, hi as int),
            forall|j: int| b - a <= j < t.len() ==> is_ws(t[j]),
        decreases b - a,
    {
        b = b - 1;
    }
    proof {
        lemma_trim_end_take(t, b - a);
        assert(t.take(b - a) =~= chars@.subrange(a as int, b as int));
    }
    (a, b)
}

/// `chars[lo..hi]` with trailing `'%'` removed, as the new end index.
pub fn trim_percent_in(chars: &[char], lo: usize, hi: usize) -> (r: usize)
    requires
        lo <= hi <= chars@.len(),
    ensures
        lo <= r <= hi,
        chars@.subrange(lo as int, r as int) == trim_percent(
            chars@.subrange(lo as int, hi as int),
        ),
{
    let ghost s = chars@.subrange(lo as int, hi as int);
    let mut b = hi;
    while b > lo && chars[b - 1] == '%'
        invariant
            lo <= b <= hi <= chars@.len(),
            s == chars@.subrange(lo as int, hi as int),
            forall|j: int| b - lo <= j < s.len() ==> s[j] == '%',
        decreases b - lo,
    {
        b = b - 1;
    }
    proof {
        lemma_trim_percent_take(s, b - lo);
        assert(s.take(b - lo) =~= chars@.subrange(lo as int, b as int));
    }
    b
}

/// The line that starts at `pos` (with `pos < chars.len()`): the range
/// of its text and the start of the next line.
pub fn next_line(chars: &[char], pos: usize) -> (r: (usize, usize, usize))
    requires
        pos < chars@.len(),
    ensures
        pos <= r.0 <= r.1 <= r.2 <= chars@.len(),
        r.2 > pos,
        lines(chars@.skip(pos as int)) == seq![chars@.subrange(r.0 as int, r.1 as int)] + lines(
            chars@.skip(r.2 as int),
        ),
{
    let n = chars.len();
    let ghost s = chars@.skip(pos as int);
    assert(chars@.subrange(pos as int, n as int) =~= s);
    match find_in(chars, pos, n, '\n') {
        Some(k) => {
            proof {
                lemma_find_bounds(s, '\n');
                assert(s.take(k - pos) =~= chars@.subrange(pos as int, k as int));
                assert(s.skip(k - pos + 1) =~= chars@.skip(k + 1));
            }
            let end = if k > pos && chars[k - 1] == '\r' {
                k - 1
            } else {
                k
            };
            assert(chars@.subrange(pos as int, end as int) =~= strip_cr(
                chars@.subrange(pos as int, k as int),
            ));
            (pos, end, k + 1)
        },
        None => {
            assert(chars@.skip(n as int) =~= Seq::<char>::empty());
            assert(lines(chars@.skip(n as int)) =~= Seq::<Seq<char>>::empty());
            assert(chars@.subrange(pos as int, n as int) =~= s);
            assert(seq![s] + Seq::<Seq<char>>::empty() =~= seq![s]);
            (pos, n, n)
        },
    }
}

} // verus!
