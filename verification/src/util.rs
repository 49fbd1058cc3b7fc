//! Text helpers: session slugs, clock-style durations and whitespace cleanup.
use vstd::prelude::*;

use crate::text::{
    ascii_lower, chars_of, dec, dec2, push_dec, extend_chars, is_ascii_alnum, is_ascii_alphanumeric, join,
    push_dec2, split_words, string_of, sub_chars, to_ascii_lower, trim, trim_chars, words,
    join_chars, lemma_trim_ends, is_ws, lead_ws, lemma_lead_ws, lemma_trail_ws, lemma_lead_ws_unique, lemma_trail_ws_unique,
};

verus! {

broadcast use vstd::string::group_string_axioms;

/// What `char::is_alphanumeric` answers for `c` (the Unicode `Alphabetic` or
/// `Numeric` property).
pub uninterp spec fn unicode_alphanumeric(c: char) -> bool;

/// `char::is_alphanumeric`: Verus is told only that the answer is
/// `unicode_alphanumeric(c)`; the Unicode tables behind it are not stated.
#[verifier::external_body]
fn char_is_alphanumeric(c: char) -> (b: bool)
    ensures
        b == unicode_alphanumeric(c),
{
    c.is_alphanumeric()
}

/// The character a slug keeps for `c`, if any: ASCII letters and digits in
/// lower case, and alphanumeric characters beyond ASCII as they are.  (For
/// ASCII characters `char::is_alphanumeric` agrees with the ASCII test, so the
/// Unicode lookup is consulted beyond ASCII only.)
pub open spec fn slug_char(c: char) -> Option<char> {
    if is_ascii_alnum(c) {
        Some(ascii_lower(c))
    } else if (c as u32) >= 128 && unicode_alphanumeric(c) {
        Some(ascii_lower(c))
    } else {
        None
    }
}

/// Left-to-right scan of `slugify`: the characters written so far and
/// whether the last one written was a separator dash.
pub open spec fn slug_scan(s: Seq<char>) -> (Seq<char>, bool)
    decreases s.len(),
{
    if s.len() == 0 {
        (Seq::empty(), false)
    } else {
        let (out, last_dash) = slug_scan(s.drop_last());
        match slug_char(s.last()) {
            Some(m) => (out.push(m), false),
            None => if !last_dash {
                (out.push('-'), true)
            } else {
                (out, last_dash)
            },
        }
    }
}

pub open spec fn lead_dashes(s: Seq<char>) -> nat
    decreases s.len(),
{
    if s.len() > 0 && s[0] == '-' {
        1 + lead_dashes(s.drop_first())
    } else {
        0
    }
}

pub open spec fn trail_dashes(s: Seq<char>) -> nat
    decreases s.len(),
{
    if s.len() > 0 && s.last() == '-' {
        1 + trail_dashes(s.drop_last())
    } else {
        0
    }
}

/// `s` without its leading and trailing dashes.
pub open spec fn strip_dashes(s: Seq<char>) -> Seq<char> {
    let a = s.skip(lead_dashes(s) as int);
    a.take(a.len() - trail_dashes(a))
}

pub open spec fn session_word() -> Seq<char> {
    seq!['s', 'e', 's', 's', 'i', 'o', 'n']
}

/// The slug of a title: trimmed, every run of characters that are not kept
/// collapsed into one dash, no dash at either end, and `session` when
/// nothing is left.
pub open spec fn slug(s: Seq<char>) -> Seq<char> {
    let out = strip_dashes(slug_scan(trim(s)).0);
    if out.len() == 0 {
        session_word()
    } else {
        out
    }
}

/// No two dashes stand next to each other.
pub open spec fn no_double_dash(s: Seq<char>) -> bool {
    forall|i: int| 0 <= i < s.len() - 1 ==> !(#[trigger] s[i] == '-' && s[i + 1] == '-')
}

proof fn lemma_slug_scan(s: Seq<char>)
    ensures
        no_double_dash(slug_scan(s).0),
        slug_scan(s).1 == (slug_scan(s).0.len() > 0 && slug_scan(s).0.last() == '-'),
    decreases s.len(),
{
    if s.len() > 0 {
        lemma_slug_scan(s.drop_last());
        let (out, last_dash) = slug_scan(s.drop_last());
        match slug_char(s.last()) {
            Some(m) => {
                assert(m != '-');
                let o2 = out.push(m);
                assert forall|i: int| 0 <= i < o2.len() - 1 implies !(#[trigger] o2[i] == '-'
                    && o2[i + 1] == '-') by {
                    if i < out.len() - 1 {
                        assert(o2[i] == out[i] && o2[i + 1] == out[i + 1]);
                    }
                }
            },
            None => {
                if !last_dash {
                    let o2 = out.push('-');
                    assert forall|i: int| 0 <= i < o2.len() - 1 implies !(#[trigger] o2[i] == '-'
                        && o2[i + 1] == '-') by {
                        if i < out.len() - 1 {
                            assert(o2[i] == out[i] && o2[i + 1] == out[i + 1]);
                        } else {
                            assert(o2[i] == out.last());
                        }
                    }
                }
            },
        }
    }
}

proof fn lemma_lead_dashes(s: Seq<char>)
    ensures
        lead_dashes(s) <= s.len(),
        lead_dashes(s) < s.len() ==> s[lead_dashes(s) as int] != '-',
    decreases s.len(),
{
    if s.len() > 0 && s[0] == '-' {
        lemma_lead_dashes(s.drop_first());
    }
}

proof fn lemma_trail_dashes(s: Seq<char>)
    ensures
        trail_dashes(s) <= s.len(),
        trail_dashes(s) < s.len() ==> s[s.len() - trail_dashes(s) - 1] != '-',
    decreases s.len(),
{
    if s.len() > 0 && s.last() == '-' {
        lemma_trail_dashes(s.drop_last());
    }
}

proof fn lemma_lead_dashes_unique(s: Seq<char>, n: int)
    requires
        0 <= n <= s.len(),
        forall|k: int| 0 <= k < n ==> #[trigger] s[k] == '-',
        n < s.len() ==> s[n] != '-',
    ensures
        lead_dashes(s) == n,
    decreases s.len(),
{
    if n > 0 {
        assert(s[0] == '-');
        assert forall|k: int| 0 <= k < n - 1 implies #[trigger] s.drop_first()[k] == '-' by {
            assert(s.drop_first()[k] == s[k + 1]);
        }
        if n < s.len() {
            assert(s.drop_first()[n - 1] == s[n]);
        }
        lemma_lead_dashes_unique(s.drop_first(), n - 1);
    }
}

proof fn lemma_trail_dashes_unique(s: Seq<char>, n: int)
    requires
        0 <= n <= s.len(),
        forall|k: int| s.len() - n <= k < s.len() ==> #[trigger] s[k] == '-',
        n < s.len() ==> s[s.len() - n - 1] != '-',
    ensures
        trail_dashes(s) == n,
    decreases s.len(),
{
    if n > 0 {
        assert(s[s.len() - 1] == '-');
        assert forall|k: int| s.drop_last().len() - (n - 1) <= k < s.drop_last().len() implies #[trigger] s.drop_last()[k] == '-' by {
            assert(s.drop_last()[k] == s[k]);
        }
        if n < s.len() {
            assert(s.drop_last()[s.drop_last().len() - (n - 1) - 1] == s[s.len() - n - 1]);
        }
        lemma_trail_dashes_unique(s.drop_last(), n - 1);
    }
}

/// A slug for a session title: lower case letters and digits, with each run of
/// other characters turned into a single dash.
pub fn slugify(input: &str) -> (r: String)
    ensures
        r@ == slug(input@),
        forall|k: int| 0 <= k < r@.len() ==> slug_allowed(#[trigger] r@[k]),
        r@.len() > 0,
        r@[0] != '-',
        r@.last() != '-',
        no_double_dash(r@),
{
    let all = chars_of(input);
    let t = trim_chars(all.as_slice());
    let mut out: Vec<char> = Vec::new();
    let mut last_dash = false;
    let mut i: usize = 0;
    while i < t.len()
        invariant
            i <= t.len(),
            (out@, last_dash) == slug_scan(t@.take(i as int)),
        decreases t.len() - i,
    {
        let ch = t[i];
        proof {
            assert(t@.take(i + 1).drop_last() =~= t@.take(i as int));
            assert(t@.take(i + 1).last() == ch);
        }
        let mapped = if is_ascii_alphanumeric(ch) {
            Some(to_ascii_lower(ch))
        } else if (ch as u32) >= 128 && char_is_alphanumeric(ch) {
            Some(to_ascii_lower(ch))
        } else {
            None
        };
        match mapped {
            Some(m) => {
                out.push(m);
                last_dash = false;
            },
            None => {
                if !last_dash {
                    out.push('-');
                    last_dash = true;
                }
            },
        }
        i += 1;
    }
    assert(t@.take(t.len() as int) =~= t@);
    proof {
        lemma_slug_scan(t@);
    }
    // strip the dashes at both ends
    let mut a: usize = 0;
    while a < out.len() && out[a] == '-'
        invariant
            a <= out.len(),
            forall|k: int| 0 <= k < a ==> #[trigger] out@[k] == '-',
        decreases out.len() - a,
    {
        a += 1;
    }
    let mut b: usize = out.len();
    while b > a && out[b - 1] == '-'
        invariant
            a <= b <= out.len(),
            forall|k: int| b <= k < out.len() ==> #[trigger] out@[k] == '-',
        decreases b,
    {
        b -= 1;
    }
    let stripped = sub_chars(out.as_slice(), a, b);
    proof {
        let s = out@;
        lemma_lead_dashes_unique(s, a as int);
        let sk = s.skip(a as int);
        assert forall|k: int| sk.len() - (out.len() - b) <= k < sk.len() implies #[trigger] sk[k]
            == '-' by {
            assert(sk[k] == s[k + a]);
        }
        if out.len() - b < sk.len() {
            assert(sk[sk.len() - (out.len() - b) - 1] == s[b - 1]);
        }
        lemma_trail_dashes_unique(sk, (out.len() - b) as int);
        assert(stripped@ =~= strip_dashes(s));
        assert forall|i: int| 0 <= i < stripped@.len() - 1 implies !(#[trigger] stripped@[i]
            == '-' && stripped@[i + 1] == '-') by {
            assert(stripped@[i] == s[i + a] && stripped@[i + 1] == s[i + a + 1]);
        }
    }
    let r = if stripped.len() == 0 {
        let r = "session".to_string();
        proof {
            reveal_strlit("session");
            assert(r@ =~= session_word());
        }
        r
    } else {
        string_of(stripped.as_slice())
    };
    proof {
        assert(r@ == slug(input@));
        lemma_slug_chars(input@);
        assert forall|k: int| 0 <= k < r@.len() implies slug_allowed(#[trigger] r@[k]) by {
            assert(r@[k] == slug(input@)[k]);
        }
    }
    r
}

// ---------------------------------------------------------------------------
// A slug is its own slug
// ---------------------------------------------------------------------------
/// A character that can stand in a slug and comes back unchanged: a dash, or
/// a kept character that maps to itself and is not whitespace.
pub open spec fn slug_stable(c: char) -> bool {
    c == '-' || (slug_char(c) == Some(c) && !is_ws(c))
}

/// No character of `s` is both alphanumeric (as `char::is_alphanumeric`
/// answers) and whitespace.  Unicode keeps the two classes apart, so every
/// text meets this; it is written out because the answer of
/// `char::is_alphanumeric` is left open here.
pub open spec fn alnum_apart_from_space(s: Seq<char>) -> bool {
    forall|i: int| 0 <= i < s.len() ==> !(unicode_alphanumeric(#[trigger] s[i]) && is_ws(s[i]))
}

proof fn lemma_kept_char_stable(c: char)
    requires
        !(unicode_alphanumeric(c) && is_ws(c)),
        slug_char(c) is Some,
    ensures
        slug_stable(slug_char(c)->0),
{
    let u = c as u32;
    if is_ascii_alnum(c) {
        let m = ascii_lower(c);
        if 65 <= u <= 90 {
            assert((m as u32) == u + 32);
        } else {
            assert(m == c);
        }
        assert(97 <= (m as u32) <= 122 || 48 <= (m as u32) <= 57);
        assert(is_ascii_alnum(m));
        assert(ascii_lower(m) == m);
    } else {
        assert(u >= 128);
        assert(ascii_lower(c) == c);
    }
}

proof fn lemma_scan_stable(t: Seq<char>)
    requires
        alnum_apart_from_space(t),
    ensures
        forall|k: int| 0 <= k < slug_scan(t).0.len() ==> slug_stable(#[trigger] slug_scan(t).0[k]),
    decreases t.len(),
{
    if t.len() > 0 {
        let d = t.drop_last();
        assert forall|i: int| 0 <= i < d.len() implies !(unicode_alphanumeric(#[trigger] d[i])
            && is_ws(d[i])) by {
            assert(d[i] == t[i]);
        }
        lemma_scan_stable(d);
        let (out, last_dash) = slug_scan(d);
        assert(!(unicode_alphanumeric(t[t.len() - 1]) && is_ws(t[t.len() - 1])));
        match slug_char(t.last()) {
            Some(m) => {
                lemma_kept_char_stable(t.last());
                let o2 = out.push(m);
                assert forall|k: int| 0 <= k < o2.len() implies slug_stable(#[trigger] o2[k]) by {
                    if k < out.len() {
                        assert(o2[k] == out[k]);
                    }
                }
            },
            None => {
                if !last_dash {
                    let o2 = out.push('-');
                    assert forall|k: int| 0 <= k < o2.len() implies slug_stable(#[trigger] o2[k]) by {
                        if k < out.len() {
                            assert(o2[k] == out[k]);
                        }
                    }
                }
            },
        }
    }
}

/// Scanning text made of stable characters, with no two dashes together,
/// gives the text back.
proof fn lemma_scan_identity(x: Seq<char>)
    requires
        no_double_dash(x),
        forall|k: int| 0 <= k < x.len() ==> slug_stable(#[trigger] x[k]),
    ensures
        slug_scan(x) == (x, x.len() > 0 && x.last() == '-'),
    decreases x.len(),
{
    if x.len() > 0 {
        let d = x.drop_last();
        assert forall|k: int| 0 <= k < d.len() implies slug_stable(#[trigger] d[k]) by {
            assert(d[k] == x[k]);
        }
        assert forall|i: int| 0 <= i < d.len() - 1 implies !(#[trigger] d[i] == '-' && d[i + 1]
            == '-') by {
            assert(d[i] == x[i] && d[i + 1] == x[i + 1]);
            assert(!(x[i] == '-' && x[i + 1] == '-'));
        }
        lemma_scan_identity(d);
        let c = x.last();
        assert(slug_stable(x[x.len() - 1]));
        if c == '-' {
            assert(slug_char(c) is None);
            if d.len() > 0 {
                assert(!(x[x.len() - 2] == '-' && x[x.len() - 1] == '-'));
                assert(d.last() == x[x.len() - 2]);
            }
        }
        assert(d.push(c) =~= x);
    }
}

/// A non-empty text of stable characters, with no dash at either end and no
/// two dashes together, is its own slug.
proof fn lemma_slug_fixed(y: Seq<char>)
    requires
        y.len() > 0,
        y[0] != '-',
        y.last() != '-',
        no_double_dash(y),
        forall|k: int| 0 <= k < y.len() ==> slug_stable(#[trigger] y[k]),
    ensures
        slug(y) == y,
{
    assert(slug_stable(y[0]));
    assert(slug_stable(y[y.len() - 1]));
    lemma_lead_ws_unique(y, 0);
    assert(y.skip(0) =~= y);
    lemma_trail_ws_unique(y, 0);
    assert(trim(y) =~= y);
    lemma_scan_identity(y);
    lemma_lead_dashes_unique(y, 0);
    lemma_trail_dashes_unique(y, 0);
    assert(strip_dashes(y) =~= y);
}

proof fn lemma_slug_shape(s: Seq<char>)
    requires
        alnum_apart_from_space(s),
    ensures
        slug(s).len() > 0,
        slug(s)[0] != '-',
        slug(s).last() != '-',
        no_double_dash(slug(s)),
        forall|k: int| 0 <= k < slug(s).len() ==> slug_stable(#[trigger] slug(s)[k]),
{
    let t = trim(s);
    lemma_trim_ends(s);
    lemma_lead_ws(s);
    let sa = s.skip(lead_ws(s) as int);
    lemma_trail_ws(sa);
    assert(t.len() + lead_ws(s) <= s.len());
    assert forall|i: int| 0 <= i < t.len() implies !(unicode_alphanumeric(#[trigger] t[i])
        && is_ws(t[i])) by {
        assert(t[i] == s[i + lead_ws(s)]);
    }
    lemma_scan_stable(t);
    lemma_slug_scan(t);
    let o = slug_scan(t).0;
    lemma_lead_dashes(o);
    let ld = lead_dashes(o) as int;
    let a = o.skip(ld);
    lemma_trail_dashes(a);
    let out = strip_dashes(o);
    assert forall|k: int| 0 <= k < out.len() implies slug_stable(#[trigger] out[k]) by {
        assert(out[k] == o[k + ld]);
    }
    assert forall|i: int| 0 <= i < out.len() - 1 implies !(#[trigger] out[i] == '-' && out[i
        + 1] == '-') by {
        assert(out[i] == o[i + ld] && out[i + 1] == o[i + 1 + ld]);
        assert(!(o[i + ld] == '-' && o[i + ld + 1] == '-'));
    }
    if out.len() > 0 {
        assert(out[0] == o[ld]);
        assert(out.last() == a[a.len() - trail_dashes(a) - 1]);
    } else {
        let w = session_word();
        assert(w =~= seq!['s', 'e', 's', 's', 'i', 'o', 'n']);
        assert forall|k: int| 0 <= k < w.len() implies slug_stable(#[trigger] w[k]) by {
            assert(97 <= (w[k] as u32) <= 122);
        }
        assert forall|i: int| 0 <= i < w.len() - 1 implies !(#[trigger] w[i] == '-' && w[i + 1]
            == '-') by {
        }
    }
}

/// A character a slug may hold: a dash, a lower-case ASCII letter or an ASCII
/// digit, or a character beyond ASCII that `char::is_alphanumeric` accepts.
pub open spec fn slug_allowed(c: char) -> bool {
    ||| c == '-'
    ||| 97 <= (c as u32) <= 122
    ||| 48 <= (c as u32) <= 57
    ||| ((c as u32) >= 128 && unicode_alphanumeric(c))
}

proof fn lemma_scan_allowed(t: Seq<char>)
    ensures
        forall|k: int| 0 <= k < slug_scan(t).0.len() ==> slug_allowed(#[trigger] slug_scan(t).0[k]),
    decreases t.len(),
{
    if t.len() > 0 {
        lemma_scan_allowed(t.drop_last());
        let (out, last_dash) = slug_scan(t.drop_last());
        let c = t.last();
        match slug_char(c) {
            Some(m) => {
                if is_ascii_alnum(c) {
                    if 65 <= (c as u32) <= 90 {
                        assert((m as u32) == (c as u32) + 32);
                    } else {
                        assert(m == c);
                    }
                } else {
                    assert(m == c);
                }
                assert(slug_allowed(m));
                let o2 = out.push(m);
                assert forall|k: int| 0 <= k < o2.len() implies slug_allowed(#[trigger] o2[k]) by {
                    if k < out.len() {
                        assert(o2[k] == out[k]);
                    }
                }
            },
            None => {
                if !last_dash {
                    let o2 = out.push('-');
                    assert forall|k: int| 0 <= k < o2.len() implies slug_allowed(#[trigger] o2[k]) by {
                        if k < out.len() {
                            assert(o2[k] == out[k]);
                        }
                    }
                }
            },
        }
    }
}

/// Every character of a slug is a dash, a lower-case ASCII letter, an ASCII
/// digit, or a character beyond ASCII that `char::is_alphanumeric` accepts:
/// punctuation and whitespace, ASCII or not, never stay in a slug.
pub proof fn lemma_slug_chars(s: Seq<char>)
    ensures
        forall|k: int| 0 <= k < slug(s).len() ==> slug_allowed(#[trigger] slug(s)[k]),
{
    let o = slug_scan(trim(s)).0;
    lemma_scan_allowed(trim(s));
    lemma_lead_dashes(o);
    let ld = lead_dashes(o) as int;
    let a = o.skip(ld);
    lemma_trail_dashes(a);
    let out = strip_dashes(o);
    assert forall|k: int| 0 <= k < out.len() implies slug_allowed(#[trigger] out[k]) by {
        assert(out[k] == o[k + ld]);
    }
    if out.len() == 0 {
        let w = session_word();
        assert forall|k: int| 0 <= k < w.len() implies slug_allowed(#[trigger] w[k]) by {
            assert(97 <= (w[k] as u32) <= 122);
        }
    }
}

/// The slug of a slug is the slug itself (for text whose alphanumeric
/// characters are not whitespace, which Unicode makes every text).
pub proof fn lemma_slug_idempotent(s: Seq<char>)
    requires
        alnum_apart_from_space(s),
    ensures
        slug(slug(s)) == slug(s),
{
    lemma_slug_shape(s);
    lemma_slug_fixed(slug(s));
}

/// `H:MM:SS` style clock text: `HH:MM:SS` when there is at least one hour,
/// otherwise `MM:SS`, each field zero-padded to two digits.
pub open spec fn clock(seconds: nat) -> Seq<char> {
    let hours = seconds / 3600;
    let minutes = (seconds % 3600) / 60;
    let secs = seconds % 60;
    if hours > 0 {
        dec2(hours) + seq![':'] + dec2(minutes) + seq![':'] + dec2(secs)
    } else {
        dec2(minutes) + seq![':'] + dec2(secs)
    }
}

pub fn format_duration(seconds: u64) -> (r: String)
    ensures
        r@ == clock(seconds as nat),
{
    let hours = seconds / 3600;
    let minutes = (seconds % 3600) / 60;
    let secs = seconds % 60;
    let mut out: Vec<char> = Vec::new();
    if hours > 0 {
        push_dec2(&mut out, hours);
        out.push(':');
    }
    push_dec2(&mut out, minutes);
    out.push(':');
    push_dec2(&mut out, secs);
    assert(out@ =~= clock(seconds as nat));
    string_of(out.as_slice())
}

/// A millisecond offset shown as the clock text of its whole seconds.
pub fn format_duration_ms(ms: u64) -> (r: String)
    ensures
        r@ == clock((ms / 1000) as nat),
{
    format_duration(ms / 1000)
}

// ---------------------------------------------------------------------------
// Local dates and times
// ---------------------------------------------------------------------------
/// A local date and time as chrono's accessors give it: the calendar fields,
/// the nanoseconds past the second (1_000_000_000 and above mark a leap
/// second) and the offset of the local time from UTC, in seconds.
#[derive(Clone, Copy, Debug)]
pub struct LocalStamp {
    pub year: i32,
    pub month: u32,
    pub day: u32,
    pub hour: u32,
    pub minute: u32,
    pub second: u32,
    pub nanosecond: u32,
    pub offset_seconds: i32,
}

/// The ranges that chrono's accessors guarantee.
pub open spec fn stamp_in_range(d: LocalStamp) -> bool {
    &&& 1 <= d.month <= 12
    &&& 1 <= d.day <= 31
    &&& d.hour <= 23
    &&& d.minute <= 59
    &&& d.second <= 59
    &&& d.nanosecond < 2_000_000_000
    &&& -86400 < d.offset_seconds < 86400
}

impl LocalStamp {
    pub fn in_range(&self) -> (b: bool)
        ensures
            b == stamp_in_range(*self),
    {
        1 <= self.month && self.month <= 12 && 1 <= self.day && self.day <= 31 && self.hour <= 23
            && self.minute <= 59 && self.second <= 59 && self.nanosecond < 2_000_000_000 && -86400
            < self.offset_seconds && self.offset_seconds < 86400
    }
}

/// `d` with zeros in front up to `width` characters.
pub open spec fn zero_pad(d: Seq<char>, width: nat) -> Seq<char> {
    if d.len() >= width {
        d
    } else {
        Seq::new((width - d.len()) as nat, |i: int| '0') + d
    }
}

/// chrono's `%Y` (and the year of its RFC 3339 text): four digits,
/// zero-padded, for the years 0 to 9999; otherwise a sign and then at least
/// four digits.
pub open spec fn year_text(y: int) -> Seq<char> {
    if 0 <= y <= 9999 {
        zero_pad(dec(y as nat), 4)
    } else if y < 0 {
        seq!['-'] + zero_pad(dec((-y) as nat), 4)
    } else {
        seq!['+'] + zero_pad(dec(y as nat), 4)
    }
}

/// `%Y-%m-%d`.
pub open spec fn date_text(d: LocalStamp) -> Seq<char> {
    year_text(d.year as int) + seq!['-'] + dec2(d.month as nat) + seq!['-'] + dec2(d.day as nat)
}

/// `%H:%M:%S`; a leap second shows as second 60.
pub open spec fn time_text(d: LocalStamp) -> Seq<char> {
    dec2(d.hour as nat) + seq![':'] + dec2(d.minute as nat) + seq![':'] + dec2(
        (d.second + d.nanosecond / 1_000_000_000) as nat,
    )
}

/// The fraction of a second in RFC 3339 text: nothing for a whole second,
/// else a dot and 3, 6 or 9 digits, the fewest that hold it exactly.
pub open spec fn fraction_text(nano: nat) -> Seq<char> {
    if nano == 0 {
        Seq::empty()
    } else if nano % 1_000_000 == 0 {
        seq!['.'] + zero_pad(dec(nano / 1_000_000), 3)
    } else if nano % 1_000 == 0 {
        seq!['.'] + zero_pad(dec(nano / 1_000), 6)
    } else {
        seq!['.'] + zero_pad(dec(nano), 9)
    }
}

/// The offset from UTC as `+HH:MM` or `-HH:MM`, rounded to the nearest minute.
pub open spec fn offset_text(off: int) -> Seq<char> {
    let minutes = (if off < 0 {
        -off
    } else {
        off
    } + 30) / 60;
    seq![
        if off < 0 {
            '-'
        } else {
            '+'
        },
    ] + dec2((minutes / 60) as nat) + seq![':'] + dec2((minutes % 60) as nat)
}

/// chrono's `DateTime::to_rfc3339`: date, `T`, time, the fraction of the
/// second and the offset; a leap second shows as second 60.
pub open spec fn rfc3339_text(d: LocalStamp) -> Seq<char> {
    let leap = d.nanosecond >= 1_000_000_000;
    let sec: nat = if leap {
        (d.second + 1) as nat
    } else {
        d.second as nat
    };
    let nano: nat = if leap {
        (d.nanosecond - 1_000_000_000) as nat
    } else {
        d.nanosecond as nat
    };
    date_text(d) + seq!['T'] + dec2(d.hour as nat) + seq![':'] + dec2(d.minute as nat) + seq![':']
        + dec2(sec) + fraction_text(nano) + offset_text(d.offset_seconds as int)
}

/// Appends `v` zero-padded to `width` digits.
fn push_padded(out: &mut Vec<char>, v: u64, width: usize)
    ensures
        final(out)@ == old(out)@ + zero_pad(dec(v as nat), width as nat),
{
    let mut digits: Vec<char> = Vec::new();
    push_dec(&mut digits, v);
    assert(digits@ =~= dec(v as nat));
    if digits.len() < width {
        let mut k: usize = digits.len();
        let ghost start = out@;
        assert(Seq::new(0, |i: int| '0') =~= Seq::<char>::empty());
        assert(out@ =~= start + Seq::new(0, |i: int| '0'));
        while k < width
            invariant
                digits@.len() <= k <= width,
                out@ == start + Seq::new((k - digits@.len()) as nat, |i: int| '0'),
            decreases width - k,
        {
            out.push('0');
            k += 1;
            assert(Seq::new((k - digits@.len()) as nat, |i: int| '0') =~= Seq::new(
                (k - 1 - digits@.len()) as nat,
                |i: int| '0',
            ).push('0'));
        }
        extend_chars(out, digits.as_slice());
        assert(out@ =~= start + zero_pad(dec(v as nat), width as nat));
    } else {
        extend_chars(out, digits.as_slice());
    }
}

fn push_year(out: &mut Vec<char>, y: i32)
    ensures
        final(out)@ == old(out)@ + year_text(y as int),
{
    if 0 <= y && y <= 9999 {
        push_padded(out, y as u64, 4);
    } else if y < 0 {
        out.push('-');
        let a: i64 = -(y as i64);
        push_padded(out, a as u64, 4);
    } else {
        out.push('+');
        push_padded(out, y as u64, 4);
    }
    assert(out@ =~= old(out)@ + year_text(y as int));
}

fn push_date(out: &mut Vec<char>, d: &LocalStamp)
    ensures
        final(out)@ == old(out)@ + date_text(*d),
{
    push_year(out, d.year);
    out.push('-');
    push_dec2(out, d.month as u64);
    out.push('-');
    push_dec2(out, d.day as u64);
    assert(out@ =~= old(out)@ + date_text(*d));
}

/// The date of a local time, as chrono's `%Y-%m-%d` writes it.
pub fn format_local_date(d: &LocalStamp) -> (r: String)
    requires
        stamp_in_range(*d),
    ensures
        r@ == date_text(*d),
{
    let mut out: Vec<char> = Vec::new();
    push_date(&mut out, d);
    assert(out@ =~= date_text(*d));
    string_of(out.as_slice())
}

/// The time of day of a local time, as chrono's `%H:%M:%S` writes it.
pub fn format_local_time(d: &LocalStamp) -> (r: String)
    requires
        stamp_in_range(*d),
    ensures
        r@ == time_text(*d),
{
    let mut out: Vec<char> = Vec::new();
    push_dec2(&mut out, d.hour as u64);
    out.push(':');
    push_dec2(&mut out, d.minute as u64);
    out.push(':');
    push_dec2(&mut out, (d.second + d.nanosecond / 1_000_000_000) as u64);
    assert(out@ =~= time_text(*d));
    string_of(out.as_slice())
}

fn push_fraction(out: &mut Vec<char>, nano: u32)
    ensures
        final(out)@ == old(out)@ + fraction_text(nano as nat),
{
    if nano == 0 {
    } else if nano % 1_000_000 == 0 {
        out.push('.');
        push_padded(out, (nano / 1_000_000) as u64, 3);
    } else if nano % 1_000 == 0 {
        out.push('.');
        push_padded(out, (nano / 1_000) as u64, 6);
    } else {
        out.push('.');
        push_padded(out, nano as u64, 9);
    }
    assert(out@ =~= old(out)@ + fraction_text(nano as nat));
}

fn push_offset(out: &mut Vec<char>, offset_seconds: i32)
    ensures
        final(out)@ == old(out)@ + offset_text(offset_seconds as int),
{
    let off = offset_seconds as i64;
    let neg = off < 0;
    let a: i64 = if neg {
        -off
    } else {
        off
    };
    let minutes: i64 = (a + 30) / 60;
    if neg {
        out.push('-');
    } else {
        out.push('+');
    }
    push_dec2(out, (minutes / 60) as u64);
    out.push(':');
    push_dec2(out, (minutes % 60) as u64);
    assert(out@ =~= old(out)@ + offset_text(offset_seconds as int));
}

/// A local time as chrono's `DateTime::to_rfc3339` writes it.
pub fn format_rfc3339(d: &LocalStamp) -> (r: String)
    requires
        stamp_in_range(*d),
    ensures
        r@ == rfc3339_text(*d),
{
    let mut out: Vec<char> = Vec::new();
    push_date(&mut out, d);
    out.push('T');
    push_dec2(&mut out, d.hour as u64);
    out.push(':');
    push_dec2(&mut out, d.minute as u64);
    out.push(':');
    let leap = d.nanosecond >= 1_000_000_000;
    let sec: u32 = if leap {
        d.second + 1
    } else {
        d.second
    };
    let nano: u32 = if leap {
        d.nanosecond - 1_000_000_000
    } else {
        d.nanosecond
    };
    push_dec2(&mut out, sec as u64);
    push_fraction(&mut out, nano);
    push_offset(&mut out, d.offset_seconds);
    assert(out@ =~= rfc3339_text(*d));
    string_of(out.as_slice())
}

/// The words of `s` joined by single spaces.
pub open spec fn normalized(s: Seq<char>) -> Seq<char> {
    join(words(s), seq![' '])
}

pub fn normalize_whitespace(input: &str) -> (r: String)
    ensures
        r@ == normalized(input@),
{
    let cs = chars_of(input);
    let ws = split_words(cs.as_slice());
    let sep: Vec<char> = vec![' '];
    let joined = join_chars(&ws, sep.as_slice());
    assert(ws@.map_values(|w: Vec<char>| w@) =~= words(cs@));
    assert(sep@ =~= seq![' ']);
    string_of(joined.as_slice())
}

} // verus!
