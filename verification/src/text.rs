//! Verified text utilities: substring search, case folding, trimming and
//! digit parsing over `&str` values viewed as sequences of characters.
use vstd::prelude::*;
use vstd::string::*;

verus! {

/// The pattern `p` occurs in `s` starting at index `i`.
pub open spec fn matches_at(s: Seq<char>, p: Seq<char>, i: int) -> bool {
    0 <= i && i + p.len() <= s.len() && forall|k: int|
        0 <= k < p.len() ==> s[i + k] == p[k]
}

/// The pattern `p` occurs somewhere in `s`.
pub open spec fn contains_seq(s: Seq<char>, p: Seq<char>) -> bool {
    exists|i: int| matches_at(s, p, i)
}

/// `s` begins with `p`.
pub open spec fn starts_with_seq(s: Seq<char>, p: Seq<char>) -> bool {
    matches_at(s, p, 0)
}

/// `s` ends with `p`.
pub open spec fn ends_with_seq(s: Seq<char>, p: Seq<char>) -> bool {
    p.len() <= s.len() && matches_at(s, p, s.len() - p.len())
}

/// ASCII lower-casing of one character; all others are unchanged.
pub open spec fn lc(c: char) -> char {
    match c {
        'A' => 'a',
        'B' => 'b',
        'C' => 'c',
        'D' => 'd',
        'E' => 'e',
        'F' => 'f',
        'G' => 'g',
        'H' => 'h',
        'I' => 'i',
        'J' => 'j',
        'K' => 'k',
        'L' => 'l',
        'M' => 'm',
        'N' => 'n',
        'O' => 'o',
        'P' => 'p',
        'Q' => 'q',
        'R' => 'r',
        'S' => 's',
        'T' => 't',
        'U' => 'u',
        'V' => 'v',
        'W' => 'w',
        'X' => 'x',
        'Y' => 'y',
        'Z' => 'z',
        _ => c,
    }
}

/// ASCII lower-casing of a character sequence.
pub open spec fn lower(s: Seq<char>) -> Seq<char> {
    Seq::new(s.len(), |i: int| lc(s[i]))
}

/// White space as recognized by the line scanners.
pub open spec fn is_ws(c: char) -> bool {
    c == ' ' || c == '\t' || c == '\n' || c == '\r' || c == '\u{b}' || c == '\u{c}'
}

/// Decimal digit.
pub open spec fn is_digit(c: char) -> bool {
    '0' <= c && c <= '9'
}

/// Numeric value of a digit character.
pub open spec fn digit_val(c: char) -> nat {
    (c as nat - '0' as nat) as nat
}

/// Value of a run of decimal digits, most significant first.
pub open spec fn digits_val(s: Seq<char>) -> nat
    decreases s.len(),
{
    if s.len() == 0 {
        0
    } else {
        digits_val(s.drop_last()) * 10 + digit_val(s.last())
    }
}

/// ASCII lower-casing of one character.
pub fn lower_char(c: char) -> (r: char)
    ensures
        r == lc(c),
{
    match c {
        'A' => 'a',
        'B' => 'b',
        'C' => 'c',
        'D' => 'd',
        'E' => 'e',
        'F' => 'f',
        'G' => 'g',
        'H' => 'h',
        'I' => 'i',
        'J' => 'j',
        'K' => 'k',
        'L' => 'l',
        'M' => 'm',
        'N' => 'n',
        'O' => 'o',
        'P' => 'p',
        'Q' => 'q',
        'R' => 'r',
        'S' => 's',
        'T' => 't',
        'U' => 'u',
        'V' => 'v',
        'W' => 'w',
        'X' => 'x',
        'Y' => 'y',
        'Z' => 'z',
        _ => c,
    }
}

/// Whether `p` occurs in `s` at exactly index `i`.
pub fn match_at(s: &str, p: &str, i: usize) -> (b: bool)
    ensures
        b == matches_at(s@, p@, i as int),
{
    let n = s.unicode_len();
    let m = p.unicode_len();
    if i > n || m > n - i {
        return false;
    }
    let mut k: usize = 0;
    while k < m
        invariant
            i + m <= n,
            n == s@.len(),
            m == p@.len(),
            k <= m,
            forall|j: int| 0 <= j < k ==> s@[i + j] == p@[j],
        decreases m - k,
    {
        if s.get_char(i + k) != p.get_char(k) {
            return false;
        }
        k += 1;
    }
    true
}

/// Index of the first occurrence of `p` in `s`, if any.
pub fn find_sub(s: &str, p: &str) -> (r: Option<usize>)
    ensures
        match r {
            Some(i) => matches_at(s@, p@, i as int) && forall|j: int|
                0 <= j < i ==> !matches_at(s@, p@, j),
            None => !contains_seq(s@, p@),
        },
{
    let n = s.unicode_len();
    let m = p.unicode_len();
    if m > n {
        return None;
    }
    let mut i: usize = 0;
    while i <= n - m
        invariant
            m <= n,
            n == s@.len(),
            m == p@.len(),
            i <= n - m + 1,
            forall|j: int| 0 <= j < i ==> !matches_at(s@, p@, j),
        decreases n + 1 - i,
    {
        if match_at(s, p, i) {
            return Some(i);
        }
        i += 1;
    }
    assert(forall|j: int| matches_at(s@, p@, j) ==> 0 <= j <= n - m);
    None
}

/// Index of the first occurrence of `p` at or after `i` in `s`, if any.
/// Meaningful for nonempty patterns.
pub open spec fn find_from(s: Seq<char>, p: Seq<char>, i: int) -> Option<int>
    decreases s.len() - i,
{
    if i < 0 || i >= s.len() {
        None
    } else if matches_at(s, p, i) {
        Some(i)
    } else {
        find_from(s, p, i + 1)
    }
}

pub proof fn lemma_find_from(s: Seq<char>, p: Seq<char>, i: int, b: int)
    requires
        0 <= i <= b <= s.len(),
        p.len() > 0,
        forall|j: int| i <= j < b ==> !matches_at(s, p, j),
        b < s.len() ==> matches_at(s, p, b),
    ensures
        find_from(s, p, i) == if b < s.len() {
            Some(b)
        } else {
            None::<int>
        },
    decreases b - i,
{
    if i < b {
        lemma_find_from(s, p, i + 1, b);
    }
}

/// Like `find_sub`, stated against the recursive `find_from` so that other
/// specifications can name the same first occurrence.
pub fn find_first(s: &str, p: &str) -> (r: Option<usize>)
    requires
        p@.len() > 0,
    ensures
        match r {
            Some(i) => find_from(s@, p@, 0) == Some(i as int) && matches_at(s@, p@, i as int),
            None => find_from(s@, p@, 0) is None,
        },
{
    let n = s.unicode_len();
    let m = p.unicode_len();
    if m > n {
        proof {
            lemma_find_from(s@, p@, 0, n as int);
        }
        return None;
    }
    let mut i: usize = 0;
    while i <= n - m
        invariant
            0 < m <= n,
            n == s@.len(),
            m == p@.len(),
            i <= n - m + 1,
            forall|j: int| 0 <= j < i ==> !matches_at(s@, p@, j),
        decreases n + 1 - i,
    {
        if match_at(s, p, i) {
            proof {
                lemma_find_from(s@, p@, 0, i as int);
            }
            return Some(i);
        }
        i += 1;
    }
    proof {
        assert(forall|j: int| matches_at(s@, p@, j) ==> 0 <= j <= n - m);
        lemma_find_from(s@, p@, 0, n as int);
    }
    None
}

/// Whether `p` occurs somewhere in `s`.
pub fn contains_sub(s: &str, p: &str) -> (b: bool)
    ensures
        b == contains_seq(s@, p@),
{
    find_sub(s, p).is_some()
}

/// Whether `s` begins with `p`.
pub fn starts_with_sub(s: &str, p: &str) -> (b: bool)
    ensures
        b == starts_with_seq(s@, p@),
{
    match_at(s, p, 0)
}

/// Whether `s` ends with `p`.
pub fn ends_with_sub(s: &str, p: &str) -> (b: bool)
    ensures
        b == ends_with_seq(s@, p@),
{
    let n = s.unicode_len();
    let m = p.unicode_len();
    if m > n {
        return false;
    }
    match_at(s, p, n - m)
}

/// Whether the ASCII-lowered form of `s` matches `p` at index `i`.
pub fn match_at_lower(s: &str, p: &str, i: usize) -> (b: bool)
    ensures
        b == matches_at(lower(s@), p@, i as int),
{
    let n = s.unicode_len();
    let m = p.unicode_len();
    if i > n || m > n - i {
        return false;
    }
    let mut k: usize = 0;
    while k < m
        invariant
            i + m <= n,
            n == s@.len(),
            m == p@.len(),
            k <= m,
            forall|j: int| 0 <= j < k ==> lower(s@)[i + j] == p@[j],
        decreases m - k,
    {
        if lower_char(s.get_char(i + k)) != p.get_char(k) {
            return false;
        }
        k += 1;
    }
    true
}

/// Index of the first occurrence of `p` in the ASCII-lowered form of `s`.
pub fn find_sub_lower(s: &str, p: &str) -> (r: Option<usize>)
    ensures
        match r {
            Some(i) => matches_at(lower(s@), p@, i as int) && forall|j: int|
                0 <= j < i ==> !matches_at(lower(s@), p@, j),
            None => !contains_seq(lower(s@), p@),
        },
{
    let n = s.unicode_len();
    let m = p.unicode_len();
    if m > n {
        return None;
    }
    let mut i: usize = 0;
    while i <= n - m
        invariant
            m <= n,
            n == s@.len(),
            m == p@.len(),
            i <= n - m + 1,
            forall|j: int| 0 <= j < i ==> !matches_at(lower(s@), p@, j),
        decreases n + 1 - i,
    {
        if match_at_lower(s, p, i) {
            return Some(i);
        }
        i += 1;
    }
    assert(forall|j: int| matches_at(lower(s@), p@, j) ==> 0 <= j <= n - m);
    None
}

/// Whether `p` occurs in the ASCII-lowered form of `s`.
pub fn contains_sub_lower(s: &str, p: &str) -> (b: bool)
    ensures
        b == contains_seq(lower(s@), p@),
{
    find_sub_lower(s, p).is_some()
}

/// Whether the ASCII-lowered form of `s` begins with `p`.
pub fn starts_with_lower(s: &str, p: &str) -> (b: bool)
    ensures
        b == starts_with_seq(lower(s@), p@),
{
    match_at_lower(s, p, 0)
}

/// A freshly owned copy of the character range `[i, j)` of `s`.
pub fn substr_copy(s: &str, i: usize, j: usize) -> (r: String)
    requires
        i <= j <= s@.len(),
    ensures
        r@ == s@.subrange(i as int, j as int),
{
    let part = s.substring_char(i, j);
    String::from_str(part)
}

/// Whether the two strings hold the same characters.
pub fn str_eq(a: &str, b: &str) -> (r: bool)
    ensures
        r == (a@ == b@),
{
    let n = a.unicode_len();
    let m = b.unicode_len();
    if n != m {
        return false;
    }
    let mut k: usize = 0;
    while k < n
        invariant
            n == a@.len(),
            n == b@.len(),
            k <= n,
            forall|j: int| 0 <= j < k ==> a@[j] == b@[j],
        decreases n - k,
    {
        if a.get_char(k) != b.get_char(k) {
            return false;
        }
        k += 1;
    }
    proof {
        assert(a@ =~= b@);
    }
    true
}

/// The longest white-space prefix of `s` has this many characters.
pub open spec fn ws_prefix_len(s: Seq<char>) -> nat
    decreases s.len(),
{
    if s.len() > 0 && is_ws(s[0]) {
        (1 + ws_prefix_len(s.drop_first())) as nat
    } else {
        0
    }
}

proof fn lemma_ws_prefix(s: Seq<char>, a: int)
    requires
        0 <= a <= s.len(),
        forall|k: int| 0 <= k < a ==> is_ws(s[k]),
        a < s.len() ==> !is_ws(s[a]),
    ensures
        ws_prefix_len(s) == a,
    decreases a,
{
    if a == 0 {
    } else {
        assert(is_ws(s[0]));
        lemma_ws_prefix(s.drop_first(), a - 1);
    }
}

/// The longest white-space suffix of `s` has this many characters.
pub open spec fn ws_suffix_len(s: Seq<char>) -> nat
    decreases s.len(),
{
    if s.len() > 0 && is_ws(s.last()) {
        (1 + ws_suffix_len(s.drop_last())) as nat
    } else {
        0
    }
}

proof fn lemma_ws_suffix(s: Seq<char>, b: int)
    requires
        0 <= b <= s.len(),
        forall|k: int| b <= k < s.len() ==> is_ws(s[k]),
        b > 0 ==> !is_ws(s[b - 1]),
    ensures
        ws_suffix_len(s) == s.len() - b,
    decreases s.len() - b,
{
    if b == s.len() {
    } else {
        assert(is_ws(s.last()));
        lemma_ws_suffix(s.drop_last(), b);
    }
}

/// `s` with leading and trailing white space removed.
pub open spec fn trim_spec(s: Seq<char>) -> Seq<char> {
    if ws_prefix_len(s) == s.len() {
        Seq::empty()
    } else {
        s.subrange(ws_prefix_len(s) as int, s.len() - ws_suffix_len(s))
    }
}

/// A freshly owned copy of `s` with leading and trailing white space removed.
pub fn trim_copy(s: &str) -> (r: String)
    ensures
        r@ == trim_spec(s@),
{
    let n = s.unicode_len();
    let mut a: usize = 0;
    while a < n && is_ws_char(s.get_char(a))
        invariant
            n == s@.len(),
            a <= n,
            forall|k: int| 0 <= k < a ==> is_ws(s@[k]),
        decreases n - a,
    {
        a += 1;
    }
    if a == n {
        proof {
            lemma_ws_prefix(s@, a as int);
        }
        return String::new();
    }
    let mut b: usize = n;
    while b > a && is_ws_char(s.get_char(b - 1))
        invariant
            n == s@.len(),
            a < n,
            a <= b <= n,
            !is_ws(s@[a as int]),
            forall|k: int| 0 <= k < a ==> is_ws(s@[k]),
            forall|k: int| b <= k < n ==> is_ws(s@[k]),
        decreases b,
    {
        b -= 1;
    }
    proof {
        lemma_ws_prefix(s@, a as int);
        assert(b > a);
        assert(!is_ws(s@[b - 1]));
        lemma_ws_suffix(s@, b as int);
    }
    substr_copy(s, a, b)
}

/// Index of the first occurrence of `c` in `s[i..end]`, or `end` if absent.
pub open spec fn idx_from(s: Seq<char>, c: char, i: int, end: int) -> int
    decreases end - i,
{
    if i < 0 || i >= end {
        end
    } else if s[i] == c {
        i
    } else {
        idx_from(s, c, i + 1, end)
    }
}

pub proof fn lemma_idx_from(s: Seq<char>, c: char, i: int, end: int, b: int)
    requires
        0 <= i <= b <= end <= s.len(),
        forall|k: int| i <= k < b ==> s[k] != c,
        b < end ==> s[b] == c,
    ensures
        idx_from(s, c, i, end) == b,
    decreases b - i,
{
    if i < b {
        lemma_idx_from(s, c, i + 1, end, b);
    }
}

pub proof fn lemma_idx_from_bounds(s: Seq<char>, c: char, i: int, end: int)
    requires
        0 <= i <= end,
    ensures
        i <= idx_from(s, c, i, end) <= end,
    decreases end - i,
{
    if i < end && s[i] != c {
        lemma_idx_from_bounds(s, c, i + 1, end);
    }
}

/// Whether `c` is white space.
pub fn is_ws_char(c: char) -> (b: bool)
    ensures
        b == is_ws(c),
{
    c == ' ' || c == '\t' || c == '\n' || c == '\r' || c == '\u{b}' || c == '\u{c}'
}

/// Whether `c` is a decimal digit.
pub fn is_digit_char(c: char) -> (b: bool)
    ensures
        b == is_digit(c),
{
    '0' <= c && c <= '9'
}

/// Value of the digit run `s[i..j]`, saturated at `cap`.
pub fn digits_val_capped(s: &str, i: usize, j: usize, cap: u64) -> (r: u64)
    requires
        i <= j <= s@.len(),
        forall|k: int| i <= k < j ==> is_digit(s@[k]),
        0 < cap <= 0xFFFF_FFFF,
    ensures
        r == if digits_val(s@.subrange(i as int, j as int)) >= cap {
            cap as nat
        } else {
            digits_val(s@.subrange(i as int, j as int))
        },
{
    let mut acc: u64 = 0;
    let mut k: usize = i;
    while k < j
        invariant
            i <= k <= j <= s@.len(),
            forall|t: int| i <= t < j ==> is_digit(s@[t]),
            0 < cap <= 0xFFFF_FFFF,
            acc == if digits_val(s@.subrange(i as int, k as int)) >= cap {
                cap as nat
            } else {
                digits_val(s@.subrange(i as int, k as int))
            },
        decreases j - k,
    {
        let c = s.get_char(k);
        let d: u64 = (c as u32) as u64 - ('0' as u32) as u64;
        proof {
            assert(s@.subrange(i as int, k + 1).drop_last() =~= s@.subrange(i as int, k as int));
            assert(s@.subrange(i as int, k + 1).last() == s@[k as int]);
        }
        if acc >= cap {
            acc = cap;
        } else {
            acc = acc * 10 + d;
            if acc >= cap {
                acc = cap;
            }
        }
        k += 1;
    }
    acc
}

} // verus!
