//! The progress parser: turns one line of subprocess output into a
//! structured progress triple, and recognizes the final output-path line.
use vstd::prelude::*;
use vstd::string::*;

use crate::text::{
    contains_seq, contains_sub, digit_val, digits_val, digits_val_capped, is_digit, is_digit_char,
    is_ws, is_ws_char, match_at, matches_at, substr_copy, trim_copy, trim_spec,
};

verus! {

/// A `%` at index `e` closes a percentage-shaped number: the character before
/// it is a digit, or a decimal point that itself follows a digit.
pub open spec fn pct_end_valid(s: Seq<char>, e: int) -> bool {
    0 <= e < s.len() && s[e] == '%' && ((e >= 1 && is_digit(s[e - 1])) || (e >= 2 && s[e - 1]
        == '.' && is_digit(s[e - 2])))
}

/// The first index at or after `i` that closes a percentage, if any.
pub open spec fn pct_end_from(s: Seq<char>, i: int) -> Option<int>
    decreases s.len() - i,
{
    if i < 0 || i >= s.len() {
        None
    } else if pct_end_valid(s, i) {
        Some(i)
    } else {
        pct_end_from(s, i + 1)
    }
}

/// Start of the longest digit run that ends just before index `e`.
pub open spec fn drs(s: Seq<char>, e: int) -> int
    decreases e,
{
    if e > 0 && e <= s.len() && is_digit(s[e - 1]) {
        drs(s, e - 1)
    } else {
        e
    }
}

/// Start of the percentage-shaped number closed by the `%` at `e`: a digit
/// run, optionally preceded by one decimal point and a further digit run.
pub open spec fn num_start(s: Seq<char>, e: int) -> int {
    let f = drs(s, e);
    if f >= 2 && s[f - 1] == '.' && is_digit(s[f - 2]) {
        drs(s, f - 1)
    } else {
        f
    }
}

/// The percentage closed by the `%` at `e`, in thousandths of the whole
/// (tenths of a percent point), saturated at 1000: the integer digits
/// contribute ten per unit and only the first fractional digit counts.
pub open spec fn permille_at(s: Seq<char>, e: int) -> nat {
    let f = drs(s, e);
    let ns = num_start(s, e);
    let intd = if ns < f && s[f - 1] == '.' {
        s.subrange(ns, f - 1)
    } else if f == e {
        s.subrange(ns, e - 1)
    } else {
        s.subrange(ns, e)
    };
    let frac0: nat = if ns < f && s[f - 1] == '.' && f < e {
        digit_val(s[f])
    } else {
        0
    };
    let v = digits_val(intd) * 10 + frac0;
    if v >= 1000 {
        1000
    } else {
        v
    }
}

/// End of the longest white-space run starting at `j`.
pub open spec fn ws_run_end(s: Seq<char>, j: int) -> int
    decreases s.len() - j,
{
    if 0 <= j < s.len() && is_ws(s[j]) {
        ws_run_end(s, j + 1)
    } else {
        j
    }
}

/// End of the longest non-white-space run starting at `j`.
pub open spec fn word_run_end(s: Seq<char>, j: int) -> int
    decreases s.len() - j,
{
    if 0 <= j < s.len() && !is_ws(s[j]) {
        word_run_end(s, j + 1)
    } else {
        j
    }
}

/// The marker occurs at `i` and is followed by white space and then a word.
pub open spec fn marker_hit(s: Seq<char>, m: Seq<char>, i: int) -> bool {
    matches_at(s, m, i) && i + m.len() < s.len() && is_ws(s[i + m.len()]) && ws_run_end(
        s,
        i + m.len(),
    ) < s.len()
}

/// The first marker hit at or after `i`, if any.
pub open spec fn marker_hit_from(s: Seq<char>, m: Seq<char>, i: int) -> Option<int>
    decreases s.len() - i,
{
    if i < 0 || i >= s.len() {
        None
    } else if marker_hit(s, m, i) {
        Some(i)
    } else {
        marker_hit_from(s, m, i + 1)
    }
}

/// The word following the first hit of the marker, or empty if it never hits.
pub open spec fn token_after(s: Seq<char>, m: Seq<char>) -> Seq<char> {
    match marker_hit_from(s, m, 0) {
        Some(i) => {
            let a = ws_run_end(s, i + m.len());
            s.subrange(a, word_run_end(s, a))
        },
        None => Seq::empty(),
    }
}

proof fn lemma_pct_end_from(s: Seq<char>, e: int)
    requires
        0 <= e <= s.len(),
        forall|j: int| 0 <= j < e ==> !pct_end_valid(s, j),
        e < s.len() ==> pct_end_valid(s, e),
    ensures
        pct_end_from(s, 0) == if e < s.len() {
            Some(e)
        } else {
            None::<int>
        },
{
    lemma_pct_end_from_rec(s, 0, e);
}

proof fn lemma_pct_end_from_rec(s: Seq<char>, i: int, e: int)
    requires
        0 <= i <= e <= s.len(),
        forall|j: int| i <= j < e ==> !pct_end_valid(s, j),
        e < s.len() ==> pct_end_valid(s, e),
    ensures
        pct_end_from(s, i) == if e < s.len() {
            Some(e)
        } else {
            None::<int>
        },
    decreases e - i,
{
    if i < e {
        lemma_pct_end_from_rec(s, i + 1, e);
    }
}

proof fn lemma_drs(s: Seq<char>, a: int, e: int)
    requires
        0 <= a <= e <= s.len(),
        forall|k: int| a <= k < e ==> is_digit(s[k]),
        a > 0 ==> !is_digit(s[a - 1]),
    ensures
        drs(s, e) == a,
    decreases e - a,
{
    if a < e {
        lemma_drs(s, a, e - 1);
    }
}

proof fn lemma_ws_run_end(s: Seq<char>, j: int, b: int)
    requires
        0 <= j <= b <= s.len(),
        forall|k: int| j <= k < b ==> is_ws(s[k]),
        b < s.len() ==> !is_ws(s[b]),
    ensures
        ws_run_end(s, j) == b,
    decreases b - j,
{
    if j < b {
        lemma_ws_run_end(s, j + 1, b);
    }
}

pub proof fn lemma_word_run_end(s: Seq<char>, j: int, b: int)
    requires
        0 <= j <= b <= s.len(),
        forall|k: int| j <= k < b ==> !is_ws(s[k]),
        b < s.len() ==> is_ws(s[b]),
    ensures
        word_run_end(s, j) == b,
    decreases b - j,
{
    if j < b {
        lemma_word_run_end(s, j + 1, b);
    }
}

proof fn lemma_marker_hit_from(s: Seq<char>, m: Seq<char>, i: int, h: int)
    requires
        0 <= i <= h <= s.len(),
        forall|j: int| i <= j < h ==> !marker_hit(s, m, j),
        h < s.len() ==> marker_hit(s, m, h),
    ensures
        marker_hit_from(s, m, i) == if h < s.len() {
            Some(h)
        } else {
            None::<int>
        },
    decreases h - i,
{
    if i < h {
        lemma_marker_hit_from(s, m, i + 1, h);
    }
}

/// The word that follows the first occurrence of `marker` + white space,
/// or an empty string when no such occurrence exists.
pub fn token_after_marker(s: &str, marker: &str) -> (r: String)
    requires
        marker@.len() > 0,
    ensures
        r@ == token_after(s@, marker@),
{
    let n = s.unicode_len();
    let mlen = marker.unicode_len();
    let mut i: usize = 0;
    while i < n
        invariant
            n == s@.len(),
            mlen == marker@.len(),
            mlen > 0,
            i <= n,
            forall|j: int| 0 <= j < i ==> !marker_hit(s@, marker@, j),
        decreases n - i,
    {
        if match_at(s, marker, i) && i + mlen < n && is_ws_char(s.get_char(i + mlen)) {
            // skip the white space after the marker
            let mut a: usize = i + mlen;
            while a < n && is_ws_char(s.get_char(a))
                invariant
                    n == s@.len(),
                    i + mlen <= a <= n,
                    forall|k: int| i + mlen <= k < a ==> is_ws(s@[k]),
                decreases n - a,
            {
                a += 1;
            }
            proof {
                lemma_ws_run_end(s@, i + mlen, a as int);
            }
            if a < n {
                // found a word: take its full run
                let mut b: usize = a;
                while b < n && !is_ws_char(s.get_char(b))
                    invariant
                        n == s@.len(),
                        a <= b <= n,
                        forall|k: int| a <= k < b ==> !is_ws(s@[k]),
                    decreases n - b,
                {
                    b += 1;
                }
                proof {
                    lemma_word_run_end(s@, a as int, b as int);
                    lemma_marker_hit_from(s@, marker@, 0, i as int);
                }
                return substr_copy(s, a, b);
            }
        }
        i += 1;
    }
    proof {
        lemma_marker_hit_from(s@, marker@, 0, n as int);
    }
    String::new()
}

/// What one matched progress line carries: the filled part in thousandths
/// (saturated at 1000), the transfer-rate token and the time-remaining token
/// (either may be empty).
pub open spec fn progress_of_line(s: Seq<char>) -> Option<(nat, Seq<char>, Seq<char>)> {
    if contains_seq(s, "[download]"@) {
        match pct_end_from(s, 0) {
            Some(e) => Some((permille_at(s, e), token_after(s, "at"@), token_after(s, "ETA"@))),
            None => None,
        }
    } else {
        None
    }
}

/// Parses one line of subprocess output. A line qualifies only if it carries
/// the download marker and a percentage-shaped number closed by `%`; the rate
/// and time-remaining tokens may each be absent, yielding empty strings.
/// Absence of a match is not an error.
pub fn parse_ytdlp_progress(line: &str) -> (r: Option<(u32, String, String)>)
    ensures
        match r {
            Some(t) => progress_of_line(line@) == Some((t.0 as nat, t.1@, t.2@)) && t.0 <= 1000,
            None => progress_of_line(line@) is None,
        },
{
    if !contains_sub(line, "[download]") {
        return None;
    }
    let n = line.unicode_len();
    let mut e: usize = 0;
    while e < n
        invariant
            n == line@.len(),
            e <= n,
            contains_seq(line@, "[download]"@),
            forall|j: int| 0 <= j < e ==> !pct_end_valid(line@, j),
        decreases n - e,
    {
        let is_end = line.get_char(e) == '%' && ((e >= 1 && is_digit_char(line.get_char(e - 1)))
            || (e >= 2 && line.get_char(e - 1) == '.' && is_digit_char(line.get_char(e - 2))));
        if is_end {
            proof {
                lemma_pct_end_from(line@, e as int);
                reveal_strlit("at");
                reveal_strlit("ETA");
            }
            let pm = permille_before(line, e);
            let speed = token_after_marker(line, "at");
            let eta = token_after_marker(line, "ETA");
            return Some((pm, speed, eta));
        }
        e += 1;
    }
    proof {
        lemma_pct_end_from(line@, n as int);
    }
    None
}

/// Computes the saturated per-mille value of the number closed by the `%`
/// at index `e`.
fn permille_before(line: &str, e: usize) -> (r: u32)
    requires
        pct_end_valid(line@, e as int),
    ensures
        r == permille_at(line@, e as int),
        r <= 1000,
{
    let n = line.unicode_len();
    // start of the digit run just before the '%'
    let mut f: usize = e;
    while f > 0 && is_digit_char(line.get_char(f - 1))
        invariant
            n == line@.len(),
            e < n,
            f <= e,
            forall|k: int| f <= k < e ==> is_digit(line@[k]),
        decreases f,
    {
        f -= 1;
    }
    proof {
        lemma_drs(line@, f as int, e as int);
    }
    let has_dot = f >= 2 && line.get_char(f - 1) == '.' && is_digit_char(line.get_char(f - 2));
    let ns: usize = if has_dot {
        let mut a: usize = f - 1;
        while a > 0 && is_digit_char(line.get_char(a - 1))
            invariant
                n == line@.len(),
                f >= 1,
                f - 1 < n,
                a <= f - 1,
                forall|k: int| a <= k < f - 1 ==> is_digit(line@[k]),
            decreases a,
        {
            a -= 1;
        }
        proof {
            lemma_drs(line@, a as int, f - 1);
        }
        a
    } else {
        f
    };
    let (int_lo, int_hi): (usize, usize) = if has_dot {
        (ns, f - 1)
    } else if f == e {
        // the number ends in a bare decimal point
        (ns, e - 1)
    } else {
        (ns, e)
    };
    let dv = digits_val_capped(line, int_lo, int_hi, 1000);
    let frac0: u32 = if has_dot && f < e {
        let c = line.get_char(f);
        (c as u32) - ('0' as u32)
    } else {
        0
    };
    if dv >= 100 {
        1000
    } else {
        (dv as u32) * 10 + frac0
    }
}

/// A path segment (the text after the last slash) carries an extension: a
/// dot at some position after its first character, and not only dots.
pub open spec fn segment_has_extension(f: Seq<char>) -> bool {
    (exists|i: int| 0 < i < f.len() && f[i] == '.') && (exists|i: int|
        0 <= i < f.len() && f[i] != '.')
}

/// Start of the final path segment: one past the last slash, if any.
pub open spec fn last_segment_start(s: Seq<char>) -> int
    decreases s.len(),
{
    if s.len() == 0 {
        0
    } else if s.last() == '/' {
        s.len() as int
    } else {
        last_segment_start(s.drop_last())
    }
}

proof fn lemma_last_segment_start(s: Seq<char>, a: int)
    requires
        0 <= a <= s.len(),
        forall|k: int| a <= k < s.len() ==> s[k] != '/',
        a > 0 ==> s[a - 1] == '/',
    ensures
        last_segment_start(s) == a,
    decreases s.len() - a,
{
    if a < s.len() {
        lemma_last_segment_start(s.drop_last(), a);
    }
}

/// Whether the trimmed line names a produced file: it is nonempty, does not
/// begin with `[`, carries no percent sign, and its final path segment has
/// an extension. Such a line is taken as the output-path report.
pub open spec fn is_output_path_line(s: Seq<char>) -> bool {
    let t = trim_spec(s);
    t.len() > 0 && t[0] != '[' && !contains_seq(t, "%"@) && segment_has_extension(
        t.subrange(last_segment_start(t), t.len() as int),
    )
}

/// Recognizes the output-path report line, returning the trimmed path.
pub fn output_path_of_line(line: &str) -> (r: Option<String>)
    ensures
        match r {
            Some(p) => is_output_path_line(line@) && p@ == trim_spec(line@),
            None => !is_output_path_line(line@),
        },
{
    let t = trim_copy(line);
    let n = t.as_str().unicode_len();
    if n == 0 {
        return None;
    }
    if t.as_str().get_char(0) == '[' {
        return None;
    }
    if contains_sub(t.as_str(), "%") {
        return None;
    }
    // find the start of the final path segment
    let mut a: usize = n;
    while a > 0 && t.as_str().get_char(a - 1) != '/'
        invariant
            n == t@.len(),
            a <= n,
            forall|k: int| a <= k < n ==> t@[k] != '/',
        decreases a,
    {
        a -= 1;
    }
    proof {
        lemma_last_segment_start(t@, a as int);
    }
    // a dot strictly inside the segment, and a non-dot character somewhere
    let mut has_dot = false;
    let mut has_non_dot = false;
    let mut k: usize = a;
    while k < n
        invariant
            n == t@.len(),
            a <= k <= n,
            has_dot == exists|i: int| a < i < k && t@[i] == '.',
            has_non_dot == exists|i: int| a <= i < k && t@[i] != '.',
        decreases n - k,
    {
        let c = t.as_str().get_char(k);
        if c == '.' && k > a {
            has_dot = true;
        }
        if c != '.' {
            has_non_dot = true;
        }
        k += 1;
    }
    proof {
        let sub = t@.subrange(a as int, n as int);
        assert forall|i: int| 0 <= i < n - a implies sub[i] == t@[a + i] by {}
        if has_dot {
            let i0 = choose|i: int| a < i < n && t@[i] == '.';
            assert(sub[i0 - a] == '.');
        }
        if has_non_dot {
            let i1 = choose|i: int| a <= i < n && t@[i] != '.';
            assert(sub[i1 - a] != '.');
        }
        if exists|i: int| 0 < i < sub.len() && sub[i] == '.' {
            let i0 = choose|i: int| 0 < i < sub.len() && sub[i] == '.';
            assert(t@[a + i0] == '.');
        }
        if exists|i: int| 0 <= i < sub.len() && sub[i] != '.' {
            let i1 = choose|i: int| 0 <= i < sub.len() && sub[i] != '.';
            assert(t@[a + i1] != '.');
        }
    }
    if has_dot && has_non_dot {
        Some(t)
    } else {
        None
    }
}

} // verus!
