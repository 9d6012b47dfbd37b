//! Character-level scanning primitives over `&str`, the basis of the lexical
//! (non-parsing) extraction pass. Every executable helper is proved equal to
//! a spec function over the string's `Seq<char>` view; those spec functions
//! are the definition of the lexical grammar.

use vstd::prelude::*;
use vstd::string::*;

verus! {

/// The character sequence of a string literal, for use in grammar specs.
pub open spec fn csq(s: &str) -> Seq<char> {
    s@
}

/// Whitespace, as the line scanners understand it.
pub open spec fn is_ws(c: char) -> bool {
    c == ' ' || c == '\t' || c == '\r' || c == '\n' || c == '\u{b}' || c == '\u{c}'
}

/// Word characters: ASCII letters, digits and underscore.
pub open spec fn is_word_char(c: char) -> bool {
    ('a' <= c && c <= 'z') || ('A' <= c && c <= 'Z') || ('0' <= c && c <= '9') || c == '_'
}

/// First index at or after `i` holding a non-whitespace character, or the
/// length of `s` if none.
pub open spec fn ws_end(s: Seq<char>, i: int) -> int
    decreases s.len() - i,
{
    if i < 0 || i >= s.len() {
        i
    } else if is_ws(s[i]) {
        ws_end(s, i + 1)
    } else {
        i
    }
}

pub proof fn lemma_ws_end_bounds(s: Seq<char>, i: int)
    requires
        0 <= i <= s.len(),
    ensures
        i <= ws_end(s, i) <= s.len(),
    decreases s.len() - i,
{
    if i < s.len() && is_ws(s[i]) {
        lemma_ws_end_bounds(s, i + 1);
    }
}

pub proof fn lemma_ws_end_stop(s: Seq<char>, i: int)
    requires
        0 <= i <= s.len(),
    ensures
        ws_end(s, i) < s.len() ==> !is_ws(s[ws_end(s, i)]),
    decreases s.len() - i,
{
    if i < s.len() && is_ws(s[i]) {
        lemma_ws_end_stop(s, i + 1);
    }
}

/// First index at or after `i` holding a non-word character, or the length.
pub open spec fn word_end(s: Seq<char>, i: int) -> int
    decreases s.len() - i,
{
    if i < 0 || i >= s.len() {
        i
    } else if is_word_char(s[i]) {
        word_end(s, i + 1)
    } else {
        i
    }
}

pub proof fn lemma_word_end_bounds(s: Seq<char>, i: int)
    requires
        0 <= i <= s.len(),
    ensures
        i <= word_end(s, i) <= s.len(),
    decreases s.len() - i,
{
    if i < s.len() && is_word_char(s[i]) {
        lemma_word_end_bounds(s, i + 1);
    }
}

/// First index at or after `i` holding `c`, or the length of `s` if none.
pub open spec fn find_from(s: Seq<char>, i: int, c: char) -> int
    decreases s.len() - i,
{
    if i < 0 || i >= s.len() {
        i
    } else if s[i] == c {
        i
    } else {
        find_from(s, i + 1, c)
    }
}

pub proof fn lemma_find_from_bounds(s: Seq<char>, i: int, c: char)
    requires
        0 <= i <= s.len(),
    ensures
        i <= find_from(s, i, c) <= s.len(),
        find_from(s, i, c) < s.len() ==> s[find_from(s, i, c)] == c,
    decreases s.len() - i,
{
    if i < s.len() && s[i] != c {
        lemma_find_from_bounds(s, i + 1, c);
    }
}

/// Does `pat` occur in `s` starting exactly at `i`?
pub open spec fn matches_at(s: Seq<char>, i: int, pat: Seq<char>) -> bool {
    0 <= i && i + pat.len() <= s.len() && s.subrange(i, i + pat.len() as int) == pat
}

/// First index at or after `i` where `pat` occurs, as `Some(j)`, else `None`.
pub open spec fn find_sub_from(s: Seq<char>, i: int, pat: Seq<char>) -> Option<int>
    decreases s.len() - i,
{
    if i < 0 || i + pat.len() > s.len() {
        None
    } else if matches_at(s, i, pat) {
        Some(i)
    } else if i + 1 + pat.len() > s.len() {
        None
    } else {
        find_sub_from(s, i + 1, pat)
    }
}

/// Does `pat` occur anywhere in `s`?
pub open spec fn contains_sub(s: Seq<char>, pat: Seq<char>) -> bool {
    find_sub_from(s, 0, pat) is Some
}

pub open spec fn starts_with(s: Seq<char>, pat: Seq<char>) -> bool {
    matches_at(s, 0, pat)
}

pub open spec fn ends_with(s: Seq<char>, pat: Seq<char>) -> bool {
    matches_at(s, s.len() - pat.len(), pat)
}

/// End of the trimmed region scanning back from `i`: the least prefix length
/// that discards the trailing whitespace of `s.subrange(0, i)`.
pub open spec fn trim_back(s: Seq<char>, i: int) -> int
    decreases i,
{
    if i <= 0 || i > s.len() {
        0
    } else if is_ws(s[i - 1]) {
        trim_back(s, i - 1)
    } else {
        i
    }
}

/// `s` with leading and trailing whitespace removed.
pub open spec fn trimmed(s: Seq<char>) -> Seq<char> {
    let lo = ws_end(s, 0);
    let hi = trim_back(s, s.len() as int);
    if lo >= hi {
        Seq::<char>::empty()
    } else {
        s.subrange(lo, hi)
    }
}

/// ASCII uppercase folding of one character; everything else is unchanged.
pub open spec fn upper_char(c: char) -> char {
    match c {
        'a' => 'A', 'b' => 'B', 'c' => 'C', 'd' => 'D', 'e' => 'E', 'f' => 'F',
        'g' => 'G', 'h' => 'H', 'i' => 'I', 'j' => 'J', 'k' => 'K', 'l' => 'L',
        'm' => 'M', 'n' => 'N', 'o' => 'O', 'p' => 'P', 'q' => 'Q', 'r' => 'R',
        's' => 'S', 't' => 'T', 'u' => 'U', 'v' => 'V', 'w' => 'W', 'x' => 'X',
        'y' => 'Y', 'z' => 'Z', _ => c,
    }
}

/// ASCII lowercase folding of one character; everything else is unchanged.
pub open spec fn lower_char(c: char) -> char {
    match c {
        'A' => 'a', 'B' => 'b', 'C' => 'c', 'D' => 'd', 'E' => 'e', 'F' => 'f',
        'G' => 'g', 'H' => 'h', 'I' => 'i', 'J' => 'j', 'K' => 'k', 'L' => 'l',
        'M' => 'm', 'N' => 'n', 'O' => 'o', 'P' => 'p', 'Q' => 'q', 'R' => 'r',
        'S' => 's', 'T' => 't', 'U' => 'u', 'V' => 'v', 'W' => 'w', 'X' => 'x',
        'Y' => 'y', 'Z' => 'z', _ => c,
    }
}

pub open spec fn upper_seq(s: Seq<char>) -> Seq<char> {
    s.map_values(|c: char| upper_char(c))
}

pub open spec fn lower_seq(s: Seq<char>) -> Seq<char> {
    s.map_values(|c: char| lower_char(c))
}

/// Does `pat` (already uppercase) occur at `i` in `s`, compared after ASCII
/// uppercase folding of `s`?
pub open spec fn matches_at_upper(s: Seq<char>, i: int, pat: Seq<char>) -> bool {
    matches_at(upper_seq(s), i, pat)
}

/// First occurrence of the uppercase pattern `pat` in the folded `s`.
pub open spec fn find_sub_upper(s: Seq<char>, i: int, pat: Seq<char>) -> Option<int> {
    find_sub_from(upper_seq(s), i, pat)
}

pub open spec fn contains_upper(s: Seq<char>, pat: Seq<char>) -> bool {
    contains_sub(upper_seq(s), pat)
}

/// A line body with one trailing carriage return removed, as line splitting
/// treats `\r\n` like `\n`.
pub open spec fn strip_cr(l: Seq<char>) -> Seq<char> {
    if l.len() > 0 && l.last() == '\r' {
        l.drop_last()
    } else {
        l
    }
}

/// The lines of `s` from index `i` on: split at `'\n'`, swallowing one `'\r'`
/// before it; a trailing newline produces no final empty line.
pub open spec fn lines_from(s: Seq<char>, i: int) -> Seq<Seq<char>>
    decreases s.len() - i,
{
    if i < 0 || i >= s.len() {
        Seq::empty()
    } else {
        let f = find_from(s, i, '\n');
        let nl = if f < i {
            i
        } else {
            f
        };
        if nl >= s.len() {
            seq![s.subrange(i, s.len() as int)]
        } else {
            seq![strip_cr(s.subrange(i, nl))] + lines_from(s, nl + 1)
        }
    }
}

/// The lines of `s`, as `str::lines` splits them.
pub open spec fn lines_of(s: Seq<char>) -> Seq<Seq<char>> {
    lines_from(s, 0)
}

/// `s` with every repetition of the suffix `suf` removed from its end.
pub open spec fn strip_suffix_rep(s: Seq<char>, suf: Seq<char>) -> Seq<char>
    decreases s.len(),
{
    if suf.len() > 0 && s.len() >= suf.len() && ends_with(s, suf) {
        strip_suffix_rep(s.subrange(0, s.len() - suf.len()), suf)
    } else {
        s
    }
}

/// `s` with every repetition of the prefix `pre` removed from its start.
pub open spec fn strip_prefix_rep(s: Seq<char>, pre: Seq<char>) -> Seq<char>
    decreases s.len(),
{
    if pre.len() > 0 && s.len() >= pre.len() && starts_with(s, pre) {
        strip_prefix_rep(s.subrange(pre.len() as int, s.len() as int), pre)
    } else {
        s
    }
}

/// Index of the last path separator (`'/'` or `'\\'`) strictly below `i`,
/// or `-1` if there is none.
pub open spec fn last_sep_before(s: Seq<char>, i: int) -> int
    decreases i,
{
    if i <= 0 || i > s.len() {
        -1
    } else if s[i - 1] == '/' || s[i - 1] == '\\' {
        i - 1
    } else {
        last_sep_before(s, i - 1)
    }
}

/// The part of a path after its last separator: the file name, or the path
/// itself when it has no separator.
pub open spec fn last_segment(s: Seq<char>) -> Seq<char> {
    s.subrange(last_sep_before(s, s.len() as int) + 1, s.len() as int)
}

/// The pieces of `s` from `i` on, split at `'/'`, `'\\'` and `'.'`;
/// consecutive separators yield empty pieces, as `str::split` does.
pub open spec fn path_pieces_from(s: Seq<char>, i: int) -> Seq<Seq<char>>
    decreases s.len() - i,
{
    if i < 0 || i > s.len() {
        Seq::empty()
    } else {
        let f = first_path_sep(s, i);
        let p = if f < i {
            i
        } else {
            f
        };
        if p >= s.len() {
            seq![s.subrange(i, s.len() as int)]
        } else {
            seq![s.subrange(i, p)] + path_pieces_from(s, p + 1)
        }
    }
}

/// First index at or after `i` holding `'/'`, `'\\'` or `'.'`, or the length.
pub open spec fn first_path_sep(s: Seq<char>, i: int) -> int
    decreases s.len() - i,
{
    if i < 0 || i >= s.len() {
        i
    } else if s[i] == '/' || s[i] == '\\' || s[i] == '.' {
        i
    } else {
        first_path_sep(s, i + 1)
    }
}

/// Index of the last occurrence of `c` strictly below `i`, or `-1`.
pub open spec fn last_char_before(s: Seq<char>, i: int, c: char) -> int
    decreases i,
{
    if i <= 0 || i > s.len() {
        -1
    } else if s[i - 1] == c {
        i - 1
    } else {
        last_char_before(s, i - 1, c)
    }
}

pub proof fn lemma_last_char_bounds(s: Seq<char>, i: int, c: char)
    requires
        0 <= i <= s.len(),
    ensures
        -1 <= last_char_before(s, i, c) < i,
    decreases i,
{
    if i > 0 && s[i - 1] != c {
        lemma_last_char_bounds(s, i - 1, c);
    }
}

/// The first quoted value after `marker` in `t`: the characters between the
/// end of the first occurrence of `marker` (which itself ends in the opening
/// quote) and the next `'"'`; `None` when the marker or the closing quote is
/// missing.
pub open spec fn quoted_after(t: Seq<char>, marker: Seq<char>) -> Option<Seq<char>> {
    match find_sub_from(t, 0, marker) {
        Some(start) => {
            let a = start + marker.len();
            let e = find_from(t, a, '"');
            if e < t.len() {
                Some(t.subrange(a as int, e))
            } else {
                None
            }
        },
        None => None,
    }
}

// ------------------------------------------------------------------
// Executable mirrors.
// ------------------------------------------------------------------

pub fn char_is_ws(c: char) -> (r: bool)
    ensures
        r == is_ws(c),
{
    c == ' ' || c == '\t' || c == '\r' || c == '\n' || c == '\u{b}' || c == '\u{c}'
}

pub fn char_is_word(c: char) -> (r: bool)
    ensures
        r == is_word_char(c),
{
    let u = c as u32;
    (97 <= u && u <= 122) || (65 <= u && u <= 90) || (48 <= u && u <= 57) || u == 95
}

pub fn char_upper(c: char) -> (r: char)
    ensures
        r == upper_char(c),
{
    match c {
        'a' => 'A', 'b' => 'B', 'c' => 'C', 'd' => 'D', 'e' => 'E', 'f' => 'F',
        'g' => 'G', 'h' => 'H', 'i' => 'I', 'j' => 'J', 'k' => 'K', 'l' => 'L',
        'm' => 'M', 'n' => 'N', 'o' => 'O', 'p' => 'P', 'q' => 'Q', 'r' => 'R',
        's' => 'S', 't' => 'T', 'u' => 'U', 'v' => 'V', 'w' => 'W', 'x' => 'X',
        'y' => 'Y', 'z' => 'Z', _ => c,
    }
}

pub fn char_lower(c: char) -> (r: char)
    ensures
        r == lower_char(c),
{
    match c {
        'A' => 'a', 'B' => 'b', 'C' => 'c', 'D' => 'd', 'E' => 'e', 'F' => 'f',
        'G' => 'g', 'H' => 'h', 'I' => 'i', 'J' => 'j', 'K' => 'k', 'L' => 'l',
        'M' => 'm', 'N' => 'n', 'O' => 'o', 'P' => 'p', 'Q' => 'q', 'R' => 'r',
        'S' => 's', 'T' => 't', 'U' => 'u', 'V' => 'v', 'W' => 'w', 'X' => 'x',
        'Y' => 'y', 'Z' => 'z', _ => c,
    }
}

/// Character length of `s`; every scanner takes it alongside the string.
pub fn char_len(s: &str) -> (n: usize)
    ensures
        n == s@.len(),
{
    s.unicode_len()
}

pub fn ws_end_at(s: &str, n: usize, i: usize) -> (r: usize)
    requires
        n == s@.len(),
        i <= n,
    ensures
        r == ws_end(s@, i as int),
        i <= r <= n,
{
    let mut j = i;
    while j < n && char_is_ws(s.get_char(j))
        invariant
            i <= j <= n,
            n == s@.len(),
            ws_end(s@, i as int) == ws_end(s@, j as int),
        decreases n - j,
    {
        j = j + 1;
    }
    proof {
        lemma_ws_end_bounds(s@, j as int);
    }
    j
}

pub fn word_end_at(s: &str, n: usize, i: usize) -> (r: usize)
    requires
        n == s@.len(),
        i <= n,
    ensures
        r == word_end(s@, i as int),
        i <= r <= n,
{
    let mut j = i;
    while j < n && char_is_word(s.get_char(j))
        invariant
            i <= j <= n,
            n == s@.len(),
            word_end(s@, i as int) == word_end(s@, j as int),
        decreases n - j,
    {
        j = j + 1;
    }
    proof {
        lemma_word_end_bounds(s@, j as int);
    }
    j
}

pub fn find_char_from(s: &str, n: usize, i: usize, c: char) -> (r: usize)
    requires
        n == s@.len(),
        i <= n,
    ensures
        r == find_from(s@, i as int, c),
        i <= r <= n,
{
    let mut j = i;
    while j < n && s.get_char(j) != c
        invariant
            i <= j <= n,
            n == s@.len(),
            find_from(s@, i as int, c) == find_from(s@, j as int, c),
        decreases n - j,
    {
        j = j + 1;
    }
    proof {
        lemma_find_from_bounds(s@, j as int, c);
    }
    j
}

/// Does `pat` occur in `s` starting exactly at `i`?
pub fn str_matches_at(s: &str, n: usize, i: usize, pat: &str, m: usize) -> (r: bool)
    requires
        n == s@.len(),
        m == pat@.len(),
        i <= n,
    ensures
        r == matches_at(s@, i as int, pat@),
{
    if m > n - i {
        return false;
    }
    let mut k: usize = 0;
    while k < m
        invariant
            0 <= k <= m,
            n == s@.len(),
            m == pat@.len(),
            i + m <= n,
            forall|t: int| 0 <= t < k ==> s@[i + t] == pat@[t],
        decreases m - k,
    {
        if s.get_char(i + k) != pat.get_char(k) {
            assert(s@.subrange(i as int, i + m) != pat@) by {
                assert(s@.subrange(i as int, i + m)[k as int] != pat@[k as int]);
            }
            return false;
        }
        k = k + 1;
    }
    assert(s@.subrange(i as int, i + m) =~= pat@);
    true
}

/// First index at or after `i` where `pat` occurs.
pub fn str_find_sub(s: &str, n: usize, i: usize, pat: &str, m: usize) -> (r: Option<usize>)
    requires
        n == s@.len(),
        m == pat@.len(),
        i <= n,
    ensures
        match r {
            Some(j) => find_sub_from(s@, i as int, pat@) == Some(j as int) && i <= j && j + m
                <= n,
            None => find_sub_from(s@, i as int, pat@) is None,
        },
{
    if m > n - i {
        return None;
    }
    if m == 0 {
        assert(s@.subrange(i as int, i as int) =~= pat@);
        return Some(i);
    }
    let mut j = i;
    while j <= n - m
        invariant
            i <= j,
            1 <= m <= n,
            j <= n - m + 1,
            n == s@.len(),
            m == pat@.len(),
            find_sub_from(s@, i as int, pat@) == find_sub_from(s@, j as int, pat@),
        decreases n - j,
    {
        if str_matches_at(s, n, j, pat, m) {
            return Some(j);
        }
        j = j + 1;
    }
    None
}

pub fn str_contains(s: &str, n: usize, pat: &str, m: usize) -> (r: bool)
    requires
        n == s@.len(),
        m == pat@.len(),
    ensures
        r == contains_sub(s@, pat@),
{
    str_find_sub(s, n, 0, pat, m).is_some()
}

pub fn str_starts_with(s: &str, n: usize, pat: &str, m: usize) -> (r: bool)
    requires
        n == s@.len(),
        m == pat@.len(),
    ensures
        r == starts_with(s@, pat@),
{
    str_matches_at(s, n, 0, pat, m)
}

pub fn str_ends_with(s: &str, n: usize, pat: &str, m: usize) -> (r: bool)
    requires
        n == s@.len(),
        m == pat@.len(),
    ensures
        r == ends_with(s@, pat@),
{
    if m > n {
        return false;
    }
    str_matches_at(s, n, n - m, pat, m)
}

/// The span `(lo, hi)` of `s` with surrounding whitespace dropped;
/// `lo >= hi` means the trimmed string is empty.
pub fn trim_span(s: &str, n: usize) -> (r: (usize, usize))
    requires
        n == s@.len(),
    ensures
        r.0 == ws_end(s@, 0),
        r.1 == trim_back(s@, n as int),
        r.0 <= n,
        r.1 <= n,
{
    let lo = ws_end_at(s, n, 0);
    let mut hi = n;
    while hi > 0 && char_is_ws(s.get_char(hi - 1))
        invariant
            0 <= hi <= n,
            n == s@.len(),
            trim_back(s@, n as int) == trim_back(s@, hi as int),
        decreases hi,
    {
        hi = hi - 1;
    }
    (lo, hi)
}

/// A fresh `String` holding the characters of `s` from `lo` to `hi`.
pub fn substr(s: &str, lo: usize, hi: usize) -> (r: String)
    requires
        lo <= hi <= s@.len(),
    ensures
        r@ == s@.subrange(lo as int, hi as int),
{
    String::from_str(s.substring_char(lo, hi))
}

/// The trimmed copy of `s`.
pub fn trimmed_of(s: &str, n: usize) -> (r: String)
    requires
        n == s@.len(),
    ensures
        r@ == trimmed(s@),
{
    let (lo, hi) = trim_span(s, n);
    if lo >= hi {
        let r = String::new();
        assert(r@ =~= trimmed(s@));
        r
    } else {
        substr(s, lo, hi)
    }
}

/// Character-for-character string equality.
pub fn str_eq(a: &str, b: &str) -> (r: bool)
    ensures
        r == (a@ == b@),
{
    let na = char_len(a);
    let nb = char_len(b);
    if na != nb {
        assert(a@ != b@);
        return false;
    }
    let mut k: usize = 0;
    while k < na
        invariant
            0 <= k <= na,
            na == a@.len(),
            na == b@.len(),
            forall|t: int| 0 <= t < k ==> a@[t] == b@[t],
        decreases na - k,
    {
        if a.get_char(k) != b.get_char(k) {
            assert(a@ != b@) by {
                assert(a@[k as int] != b@[k as int]);
            }
            return false;
        }
        k = k + 1;
    }
    assert(a@ =~= b@);
    true
}

/// Does the ASCII-uppercase folding of `s` contain `pat` starting at `i`?
pub fn str_matches_at_upper(s: &str, n: usize, i: usize, pat: &str, m: usize) -> (r: bool)
    requires
        n == s@.len(),
        m == pat@.len(),
        i <= n,
    ensures
        r == matches_at_upper(s@, i as int, pat@),
{
    if m > n - i {
        return false;
    }
    let mut k: usize = 0;
    while k < m
        invariant
            0 <= k <= m,
            n == s@.len(),
            m == pat@.len(),
            i + m <= n,
            forall|t: int| 0 <= t < k ==> upper_seq(s@)[i + t] == pat@[t],
        decreases m - k,
    {
        if char_upper(s.get_char(i + k)) != pat.get_char(k) {
            assert(upper_seq(s@).subrange(i as int, i + m) != pat@) by {
                assert(upper_seq(s@).subrange(i as int, i + m)[k as int] != pat@[k as int]);
            }
            return false;
        }
        assert(upper_seq(s@)[i + k] == pat@[k as int]);
        k = k + 1;
    }
    assert(upper_seq(s@).subrange(i as int, i + m) =~= pat@);
    true
}

/// First occurrence of the uppercase `pat` in the folded `s`, from `i`.
pub fn str_find_sub_upper(s: &str, n: usize, i: usize, pat: &str, m: usize) -> (r: Option<
    usize,
>)
    requires
        n == s@.len(),
        m == pat@.len(),
        i <= n,
    ensures
        match r {
            Some(j) => find_sub_upper(s@, i as int, pat@) == Some(j as int) && i <= j && j + m
                <= n,
            None => find_sub_upper(s@, i as int, pat@) is None,
        },
{
    if m > n - i {
        return None;
    }
    if m == 0 {
        assert(upper_seq(s@).subrange(i as int, i as int) =~= pat@);
        return Some(i);
    }
    let mut j = i;
    while j <= n - m
        invariant
            i <= j,
            1 <= m <= n,
            j <= n - m + 1,
            n == s@.len(),
            m == pat@.len(),
            find_sub_from(upper_seq(s@), i as int, pat@) == find_sub_from(
                upper_seq(s@),
                j as int,
                pat@,
            ),
        decreases n - j,
    {
        if str_matches_at_upper(s, n, j, pat, m) {
            return Some(j);
        }
        j = j + 1;
    }
    None
}

pub fn str_contains_upper(s: &str, n: usize, pat: &str, m: usize) -> (r: bool)
    requires
        n == s@.len(),
        m == pat@.len(),
    ensures
        r == contains_upper(s@, pat@),
{
    str_find_sub_upper(s, n, 0, pat, m).is_some()
}

/// The lines of `content`, each as a fresh `String`.
pub fn split_lines(content: &str) -> (r: Vec<String>)
    ensures
        r@.map_values(|l: String| l@) == lines_of(content@),
{
    let n = char_len(content);
    let mut r: Vec<String> = Vec::new();
    let mut pos: usize = 0;
    while pos < n
        invariant
            0 <= pos <= n,
            n == content@.len(),
            lines_of(content@) =~= r@.map_values(|l: String| l@) + lines_from(
                content@,
                pos as int,
            ),
        decreases n - pos,
    {
        let ghost prefix = r@.map_values(|l: String| l@);
        let nl = find_char_from(content, n, pos, '\n');
        if nl == n {
            let line = substr(content, pos, n);
            r.push(line);
            proof {
                assert(r@.map_values(|l: String| l@) =~= prefix.push(
                    content@.subrange(pos as int, n as int),
                ));
            }
            pos = n;
        } else {
            let end = if nl > pos && content.get_char(nl - 1) == '\r' {
                nl - 1
            } else {
                nl
            };
            let line = substr(content, pos, end);
            proof {
                if nl > pos && content@[nl - 1] == '\r' {
                    assert(content@.subrange(pos as int, nl as int).last() == '\r');
                    assert(content@.subrange(pos as int, nl as int).drop_last()
                        =~= content@.subrange(pos as int, nl - 1));
                } else {
                    assert(strip_cr(content@.subrange(pos as int, nl as int))
                        == content@.subrange(pos as int, nl as int));
                }
            }
            r.push(line);
            proof {
                assert(r@.map_values(|l: String| l@) =~= prefix.push(
                    strip_cr(content@.subrange(pos as int, nl as int)),
                ));
            }
            pos = nl + 1;
        }
    }
    proof {
        assert(lines_of(content@) =~= r@.map_values(|l: String| l@));
    }
    r
}

/// `s` with every repetition of the suffix `suf` stripped from its end.
pub fn strip_suffix_all(s: &str, suf: &str) -> (r: String)
    ensures
        r@ == strip_suffix_rep(s@, suf@),
{
    let m = char_len(suf);
    let n = char_len(s);
    let mut hi = n;
    proof {
        assert(s@.subrange(0, n as int) =~= s@);
    }
    while m > 0 && hi >= m && str_matches_at(s, n, hi - m, suf, m)
        invariant
            hi <= n,
            n == s@.len(),
            m == suf@.len(),
            strip_suffix_rep(s@, suf@) == strip_suffix_rep(s@.subrange(0, hi as int), suf@),
        decreases hi,
    {
        proof {
            let cur = s@.subrange(0, hi as int);
            assert(cur.subrange(cur.len() - m, cur.len() as int) =~= s@.subrange(
                hi - m,
                hi as int,
            ));
            assert(ends_with(cur, suf@));
            assert(cur.subrange(0, cur.len() - m) =~= s@.subrange(0, hi - m));
        }
        hi = hi - m;
    }
    proof {
        let cur = s@.subrange(0, hi as int);
        if m > 0 && hi >= m {
            assert(cur.subrange(cur.len() - m, cur.len() as int) =~= s@.subrange(
                hi - m,
                hi as int,
            ));
        }
        assert(strip_suffix_rep(cur, suf@) == cur);
    }
    substr(s, 0, hi)
}

/// `s` with every repetition of the prefix `pre` stripped from its start.
pub fn strip_prefix_all(s: &str, pre: &str) -> (r: String)
    ensures
        r@ == strip_prefix_rep(s@, pre@),
{
    let m = char_len(pre);
    let n = char_len(s);
    let mut lo: usize = 0;
    proof {
        assert(s@.subrange(0, n as int) =~= s@);
    }
    while m > 0 && n - lo >= m && str_matches_at(s, n, lo, pre, m)
        invariant
            lo <= n,
            n == s@.len(),
            m == pre@.len(),
            strip_prefix_rep(s@, pre@) == strip_prefix_rep(s@.subrange(lo as int, n as int), pre@),
        decreases n - lo,
    {
        proof {
            let cur = s@.subrange(lo as int, n as int);
            assert(cur.subrange(0, m as int) =~= s@.subrange(lo as int, lo + m));
            assert(starts_with(cur, pre@));
            assert(cur.subrange(m as int, cur.len() as int) =~= s@.subrange(lo + m, n as int));
        }
        lo = lo + m;
    }
    proof {
        let cur = s@.subrange(lo as int, n as int);
        if m > 0 && n - lo >= m {
            assert(cur.subrange(0, m as int) =~= s@.subrange(lo as int, lo + m));
        }
        assert(strip_prefix_rep(cur, pre@) == cur);
    }
    substr(s, lo, n)
}

/// The file name of a path: what follows the last `'/'` or `'\\'`.
pub fn file_name_of(path: &str) -> (r: String)
    ensures
        r@ == last_segment(path@),
{
    let n = char_len(path);
    let mut i = n;
    while i > 0 && !(path.get_char(i - 1) == '/' || path.get_char(i - 1) == '\\')
        invariant
            0 <= i <= n,
            n == path@.len(),
            last_sep_before(path@, n as int) == last_sep_before(path@, i as int),
        decreases i,
    {
        i = i - 1;
    }
    proof {
        lemma_last_sep_bounds(path@, i as int);
    }
    substr(path, i, n)
}

pub proof fn lemma_last_sep_bounds(s: Seq<char>, i: int)
    requires
        0 <= i <= s.len(),
    ensures
        -1 <= last_sep_before(s, i) < i,
    decreases i,
{
    if i > 0 && !(s[i - 1] == '/' || s[i - 1] == '\\') {
        lemma_last_sep_bounds(s, i - 1);
    }
}

fn char_is_path_sep(c: char) -> (r: bool)
    ensures
        r == (c == '/' || c == '\\' || c == '.'),
{
    c == '/' || c == '\\' || c == '.'
}

fn first_path_sep_at(s: &str, n: usize, i: usize) -> (r: usize)
    requires
        n == s@.len(),
        i <= n,
    ensures
        r == first_path_sep(s@, i as int),
        i <= r <= n,
{
    let mut j = i;
    while j < n && !char_is_path_sep(s.get_char(j))
        invariant
            i <= j <= n,
            n == s@.len(),
            first_path_sep(s@, i as int) == first_path_sep(s@, j as int),
        decreases n - j,
    {
        j = j + 1;
    }
    proof {
        lemma_first_path_sep_bounds(s@, j as int);
    }
    j
}

proof fn lemma_first_path_sep_bounds(s: Seq<char>, i: int)
    requires
        0 <= i <= s.len(),
    ensures
        i <= first_path_sep(s, i) <= s.len(),
    decreases s.len() - i,
{
    if i < s.len() && !(s[i] == '/' || s[i] == '\\' || s[i] == '.') {
        lemma_first_path_sep_bounds(s, i + 1);
    }
}

/// The pieces of a path split at `'/'`, `'\\'` and `'.'`.
pub fn path_pieces(s: &str) -> (r: Vec<String>)
    ensures
        r@.map_values(|p: String| p@) == path_pieces_from(s@, 0),
        r@.len() >= 1,
{
    let n = char_len(s);
    let mut r: Vec<String> = Vec::new();
    let mut pos: usize = 0;
    loop
        invariant
            0 <= pos <= n,
            n == s@.len(),
            path_pieces_from(s@, 0) =~= r@.map_values(|p: String| p@) + path_pieces_from(
                s@,
                pos as int,
            ),
            pos > 0 ==> r@.len() >= 1,
        decreases n - pos + 1,
    {
        let ghost prefix = r@.map_values(|p: String| p@);
        let p = first_path_sep_at(s, n, pos);
        if p == n {
            let piece = substr(s, pos, n);
            r.push(piece);
            proof {
                assert(r@.map_values(|p: String| p@) =~= prefix.push(
                    s@.subrange(pos as int, n as int),
                ));
                assert(path_pieces_from(s@, 0) =~= r@.map_values(|p: String| p@));
            }
            return r;
        } else {
            let piece = substr(s, pos, p);
            r.push(piece);
            proof {
                assert(r@.map_values(|q: String| q@) =~= prefix.push(
                    s@.subrange(pos as int, p as int),
                ));
            }
            pos = p + 1;
        }
    }
}

/// Index of the last occurrence of `c` in `s` below `i`, executable form.
pub fn rfind_char(s: &str, i: usize, c: char) -> (r: Option<usize>)
    requires
        i <= s@.len(),
    ensures
        match r {
            Some(j) => last_char_before(s@, i as int, c) == j as int && j < i,
            None => last_char_before(s@, i as int, c) == -1,
        },
{
    let mut j = i;
    while j > 0 && s.get_char(j - 1) != c
        invariant
            0 <= j <= i <= s@.len(),
            last_char_before(s@, i as int, c) == last_char_before(s@, j as int, c),
        decreases j,
    {
        j = j - 1;
    }
    if j == 0 {
        None
    } else {
        proof {
            lemma_last_char_bounds(s@, j as int, c);
        }
        Some(j - 1)
    }
}

/// The decimal digit character of `d`.
pub open spec fn dec_digit(d: int) -> char {
    if d == 0 {
        '0'
    } else if d == 1 {
        '1'
    } else if d == 2 {
        '2'
    } else if d == 3 {
        '3'
    } else if d == 4 {
        '4'
    } else if d == 5 {
        '5'
    } else if d == 6 {
        '6'
    } else if d == 7 {
        '7'
    } else if d == 8 {
        '8'
    } else {
        '9'
    }
}

/// The decimal rendering of a non-negative number.
pub open spec fn dec_str_of(n: int) -> Seq<char>
    decreases n,
{
    if n < 10 {
        seq![dec_digit(n)]
    } else {
        dec_str_of(n / 10).push(dec_digit(n % 10))
    }
}

fn digit_lit(d: usize) -> (r: &'static str)
    requires
        d < 10,
    ensures
        r@ =~= seq![dec_digit(d as int)],
{
    proof {
        reveal_strlit("0");
        reveal_strlit("1");
        reveal_strlit("2");
        reveal_strlit("3");
        reveal_strlit("4");
        reveal_strlit("5");
        reveal_strlit("6");
        reveal_strlit("7");
        reveal_strlit("8");
        reveal_strlit("9");
    }
    match d {
        0 => "0",
        1 => "1",
        2 => "2",
        3 => "3",
        4 => "4",
        5 => "5",
        6 => "6",
        7 => "7",
        8 => "8",
        _ => "9",
    }
}

/// The decimal rendering of a number, executable form.
pub fn dec_string(n: usize) -> (r: String)
    ensures
        r@ == dec_str_of(n as int),
    decreases n,
{
    if n < 10 {
        String::from_str(digit_lit(n))
    } else {
        let mut s = dec_string(n / 10);
        s.append(digit_lit(n % 10));
        proof {
            assert(s@ =~= dec_str_of(n as int / 10).push(dec_digit(n as int % 10)));
        }
        s
    }
}

/// The ASCII-lowercase folding of a string.
pub fn to_lower_string(s: &str) -> (r: String)
    ensures
        r@ == lower_seq(s@),
{
    let n = char_len(s);
    let mut out = String::new();
    let mut i: usize = 0;
    while i < n
        invariant
            0 <= i <= n,
            n == s@.len(),
            out@ =~= lower_seq(s@).subrange(0, i as int),
        decreases n - i,
    {
        let ghost pre = out@;
        push_char(&mut out, char_lower(s.get_char(i)));
        proof {
            assert(lower_seq(s@)[i as int] == lower_char(s@[i as int]));
            assert(out@ =~= lower_seq(s@).subrange(0, i + 1));
        }
        i = i + 1;
    }
    proof {
        assert(lower_seq(s@).subrange(0, lower_seq(s@).len() as int) =~= lower_seq(s@));
    }
    out
}

/// Relies on `String::push`: appends exactly the one character.
#[verifier::external_body]
fn push_char(s: &mut String, c: char)
    ensures
        final(s)@ == old(s)@.push(c),
{
    s.push(c)
}

/// The first quoted value after `marker`, as [`quoted_after`] defines it.
pub fn quoted_value_after(t: &str, n: usize, marker: &str, m: usize) -> (r: Option<String>)
    requires
        n == t@.len(),
        m == marker@.len(),
    ensures
        match r {
            Some(v) => quoted_after(t@, marker@) == Some(v@),
            None => quoted_after(t@, marker@) is None,
        },
{
    match str_find_sub(t, n, 0, marker, m) {
        Some(start) => {
            let a = start + m;
            let e = find_char_from(t, n, a, '"');
            if e < n {
                Some(substr(t, a, e))
            } else {
                None
            }
        },
        None => None,
    }
}

} // verus!
