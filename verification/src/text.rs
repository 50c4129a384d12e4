//! Character-level text primitives shared by the configuration-file and
//! search logic: Unicode whitespace trimming, character search and
//! substring containment, each specified over `Seq<char>`.
use vstd::prelude::*;

verus! {

/// The Unicode `White_Space` property, which `char::is_whitespace` (and
/// therefore `str::trim`) uses.
pub open spec fn is_ws(c: char) -> bool {
    ||| c == '\t'
    ||| c == '\n'
    ||| c == '\u{0B}'
    ||| c == '\u{0C}'
    ||| c == '\r'
    ||| c == ' '
    ||| c == '\u{85}'
    ||| c == '\u{A0}'
    ||| c == '\u{1680}'
    ||| ('\u{2000}' <= c && c <= '\u{200A}')
    ||| c == '\u{2028}'
    ||| c == '\u{2029}'
    ||| c == '\u{202F}'
    ||| c == '\u{205F}'
    ||| c == '\u{3000}'
}

/// End of the run of whitespace that starts at `i`.
pub open spec fn ws_run_end(s: Seq<char>, i: int) -> int
    decreases s.len() - i,
{
    if 0 <= i < s.len() && is_ws(s[i]) {
        ws_run_end(s, i + 1)
    } else {
        i
    }
}

/// Start of the run of whitespace that ends at `j`, not going below `lo`.
pub open spec fn ws_run_start(s: Seq<char>, lo: int, j: int) -> int
    decreases j,
{
    if lo < j && 0 < j <= s.len() && is_ws(s[j - 1]) {
        ws_run_start(s, lo, j - 1)
    } else {
        j
    }
}

/// `s` without its leading and trailing whitespace.
pub open spec fn trim(s: Seq<char>) -> Seq<char> {
    let a = ws_run_end(s, 0);
    s.subrange(a, ws_run_start(s, a, s.len() as int))
}

/// Index of the first `c` in `s` at or after `i`, or `s.len()` when there is none.
pub open spec fn find_from(s: Seq<char>, c: char, i: int) -> int
    decreases s.len() - i,
{
    if i < 0 {
        find_from(s, c, 0)
    } else if i < s.len() {
        if s[i] == c {
            i
        } else {
            find_from(s, c, i + 1)
        }
    } else {
        s.len() as int
    }
}

/// Index of the first `c` in `s`, or `s.len()` when there is none.
pub open spec fn find(s: Seq<char>, c: char) -> int {
    find_from(s, c, 0)
}

/// End of the run of `c` characters that starts at `i`.
pub open spec fn char_run_end(s: Seq<char>, c: char, i: int) -> int
    decreases s.len() - i,
{
    if 0 <= i < s.len() && s[i] == c {
        char_run_end(s, c, i + 1)
    } else {
        i
    }
}

/// `s` with every leading `c` removed (`str::trim_start_matches` with a char).
pub open spec fn strip_leading(s: Seq<char>, c: char) -> Seq<char> {
    s.subrange(char_run_end(s, c, 0), s.len() as int)
}

/// `needle` occurs in `s` at index `i`.
pub open spec fn occurs_at(s: Seq<char>, needle: Seq<char>, i: int) -> bool {
    0 <= i && i + needle.len() <= s.len() && s.subrange(i, i + needle.len()) == needle
}

/// `needle` is a substring of `s` (`str::contains` with a `&str` pattern).
pub open spec fn contains_seq(s: Seq<char>, needle: Seq<char>) -> bool {
    exists|i: int| occurs_at(s, needle, i)
}

/// `s` starts with the character `c`.
pub open spec fn starts_with_char(s: Seq<char>, c: char) -> bool {
    s.len() > 0 && s[0] == c
}

// ---------------------------------------------------------------------------
// Lemmas
// ---------------------------------------------------------------------------

pub proof fn lemma_ws_run_end(s: Seq<char>, i: int)
    requires
        0 <= i <= s.len(),
    ensures
        i <= ws_run_end(s, i) <= s.len(),
        forall|k: int| i <= k < ws_run_end(s, i) ==> is_ws(#[trigger] s[k]),
        ws_run_end(s, i) < s.len() ==> !is_ws(s[ws_run_end(s, i)]),
    decreases s.len() - i,
{
    if i < s.len() && is_ws(s[i]) {
        lemma_ws_run_end(s, i + 1);
    }
}

pub proof fn lemma_ws_run_start(s: Seq<char>, lo: int, j: int)
    requires
        0 <= lo <= j <= s.len(),
    ensures
        lo <= ws_run_start(s, lo, j) <= j,
        forall|k: int| ws_run_start(s, lo, j) <= k < j ==> is_ws(#[trigger] s[k]),
        ws_run_start(s, lo, j) > lo ==> !is_ws(s[ws_run_start(s, lo, j) - 1]),
    decreases j,
{
    if lo < j && is_ws(s[j - 1]) {
        lemma_ws_run_start(s, lo, j - 1);
    }
}

/// The run end is the first non-whitespace index: any index with the
/// characterising properties is it.
pub proof fn lemma_ws_run_end_unique(s: Seq<char>, i: int, e: int)
    requires
        0 <= i <= e <= s.len(),
        forall|k: int| i <= k < e ==> is_ws(#[trigger] s[k]),
        e < s.len() ==> !is_ws(s[e]),
    ensures
        ws_run_end(s, i) == e,
    decreases e - i,
{
    if i < e {
        lemma_ws_run_end_unique(s, i + 1, e);
    }
}

pub proof fn lemma_ws_run_start_unique(s: Seq<char>, lo: int, j: int, b: int)
    requires
        0 <= lo <= b <= j <= s.len(),
        forall|k: int| b <= k < j ==> is_ws(#[trigger] s[k]),
        b > lo ==> !is_ws(s[b - 1]),
    ensures
        ws_run_start(s, lo, j) == b,
    decreases j - b,
{
    if b < j {
        lemma_ws_run_start_unique(s, lo, j - 1, b);
    }
}

pub proof fn lemma_find_from(s: Seq<char>, c: char, i: int)
    requires
        0 <= i <= s.len(),
    ensures
        i <= find_from(s, c, i) <= s.len(),
        forall|k: int| i <= k < find_from(s, c, i) ==> #[trigger] s[k] != c,
        find_from(s, c, i) < s.len() ==> s[find_from(s, c, i)] == c,
    decreases s.len() - i,
{
    if i < s.len() && s[i] != c {
        lemma_find_from(s, c, i + 1);
    }
}

pub proof fn lemma_find_from_unique(s: Seq<char>, c: char, i: int, e: int)
    requires
        0 <= i <= e <= s.len(),
        forall|k: int| i <= k < e ==> #[trigger] s[k] != c,
        e < s.len() ==> s[e] == c,
    ensures
        find_from(s, c, i) == e,
    decreases e - i,
{
    if i < e {
        lemma_find_from_unique(s, c, i + 1, e);
    }
}

/// Trimming is characterised by two indices `a <= b`: everything outside
/// `[a, b)` is whitespace and the ends of `[a, b)` are not.
pub proof fn lemma_trim_bounds(s: Seq<char>, a: int, b: int)
    requires
        0 <= a <= b <= s.len(),
        forall|k: int| 0 <= k < a ==> is_ws(#[trigger] s[k]),
        forall|k: int| b <= k < s.len() ==> is_ws(#[trigger] s[k]),
        a < b ==> !is_ws(s[a]) && !is_ws(s[b - 1]),
        a == b ==> (a == s.len() || !is_ws(s[a])),
    ensures
        trim(s) == s.subrange(a, b),
{
    lemma_ws_run_end_unique(s, 0, a);
    if a == b {
        if a == s.len() {
            lemma_ws_run_start_unique(s, a, s.len() as int, a);
        } else {
            // no non-whitespace char can lie after a in this configuration
            assert(!is_ws(s[a]));
            assert(is_ws(s[a]));
        }
    } else {
        lemma_ws_run_start_unique(s, a, s.len() as int, b);
    }
}

/// The two trimming indices, with their properties.
pub proof fn lemma_trim_indices(s: Seq<char>) -> (ab: (int, int))
    ensures
        0 <= ab.0 <= ab.1 <= s.len(),
        forall|k: int| 0 <= k < ab.0 ==> is_ws(#[trigger] s[k]),
        forall|k: int| ab.1 <= k < s.len() ==> is_ws(#[trigger] s[k]),
        ab.0 < ab.1 ==> !is_ws(s[ab.0]) && !is_ws(s[ab.1 - 1]),
        ab.0 == ab.1 ==> ab.0 == s.len(),
        trim(s) == s.subrange(ab.0, ab.1),
{
    let a = ws_run_end(s, 0);
    lemma_ws_run_end(s, 0);
    let b = ws_run_start(s, a, s.len() as int);
    lemma_ws_run_start(s, a, s.len() as int);
    if a == b && a < s.len() {
        assert(is_ws(s[a]));
    }
    (a, b)
}

/// A trimmed sequence is its own trim.
pub proof fn lemma_trim_idempotent(s: Seq<char>)
    ensures
        trim(trim(s)) == trim(s),
{
    let (a, b) = lemma_trim_indices(s);
    let t = s.subrange(a, b);
    lemma_trim_bounds(t, 0, b - a);
}

/// A sequence with no whitespace at either end is its own trim.
pub proof fn lemma_trim_of_unpadded(s: Seq<char>)
    requires
        s.len() > 0 ==> !is_ws(s[0]) && !is_ws(s[s.len() - 1]),
    ensures
        trim(s) == s,
{
    lemma_trim_bounds(s, 0, s.len() as int);
    assert(s.subrange(0, s.len() as int) =~= s);
}

/// Dropping a whitespace prefix does not change the trim.
pub proof fn lemma_trim_drop_ws_prefix(s: Seq<char>, p: int)
    requires
        0 <= p <= s.len(),
        forall|k: int| 0 <= k < p ==> is_ws(#[trigger] s[k]),
    ensures
        trim(s) == trim(s.subrange(p, s.len() as int)),
{
    let u = s.subrange(p, s.len() as int);
    let (a, b) = lemma_trim_indices(u);
    assert forall|k: int| 0 <= k < p + a implies is_ws(#[trigger] s[k]) by {
        if k >= p {
            assert(s[k] == u[k - p]);
        }
    }
    assert forall|k: int| p + b <= k < s.len() implies is_ws(#[trigger] s[k]) by {
        assert(s[k] == u[k - p]);
    }
    if a < b {
        assert(s[p + a] == u[a]);
        assert(s[p + b - 1] == u[b - 1]);
    } else if p + a < s.len() {
        assert(false);
    }
    lemma_trim_bounds(s, p + a, p + b);
    assert(s.subrange(p + a, p + b) =~= u.subrange(a, b));
}


/// A non-empty trimmed sequence has no whitespace at either end.
pub proof fn lemma_trimmed_ends(s: Seq<char>)
    requires
        trim(s) == s,
        s.len() > 0,
    ensures
        !is_ws(s[0]),
        !is_ws(s[s.len() - 1]),
{
    let (a, b) = lemma_trim_indices(s);
    let t = s.subrange(a, b);
    assert(t.len() == b - a);
    assert(t.len() == s.len());
    assert(a == 0 && b == s.len());
}

/// Searching from `p` is searching the suffix that starts at `p`.
pub proof fn lemma_find_shift(s: Seq<char>, c: char, p: int)
    requires
        0 <= p <= s.len(),
    ensures
        find_from(s, c, p) == p + find(s.subrange(p, s.len() as int), c),
{
    let sub = s.subrange(p, s.len() as int);
    lemma_find_from(s, c, p);
    let k = find_from(s, c, p);
    assert forall|m: int| 0 <= m < k - p implies #[trigger] sub[m] != c by {
        assert(sub[m] == s[p + m]);
    }
    if k < s.len() {
        assert(sub[k - p] == s[k]);
    }
    lemma_find_from_unique(sub, c, 0, k - p);
}

// ---------------------------------------------------------------------------
// Executable primitives
// ---------------------------------------------------------------------------

/// `char::is_whitespace`.
pub fn is_whitespace(c: char) -> (r: bool)
    ensures
        r == is_ws(c),
{
    c == '\t' || c == '\n' || c == '\u{0B}' || c == '\u{0C}' || c == '\r' || c == ' '
        || c == '\u{85}' || c == '\u{A0}' || c == '\u{1680}' || ('\u{2000}' <= c && c <= '\u{200A}')
        || c == '\u{2028}' || c == '\u{2029}' || c == '\u{202F}' || c == '\u{205F}'
        || c == '\u{3000}'
}

/// `str::trim`: the text without leading and trailing whitespace.
pub fn trim_str(s: &str) -> (r: String)
    ensures
        r@ == trim(s@),
{
    let n = s.unicode_len();
    let mut a: usize = 0;
    while a < n && is_whitespace(s.get_char(a))
        invariant
            n == s@.len(),
            a <= n,
            ws_run_end(s@, 0) == ws_run_end(s@, a as int),
        decreases n - a,
    {
        a = a + 1;
    }
    let mut b: usize = n;
    while b > a && is_whitespace(s.get_char(b - 1))
        invariant
            n == s@.len(),
            a <= b <= n,
            ws_run_start(s@, a as int, n as int) == ws_run_start(s@, a as int, b as int),
        decreases b,
    {
        b = b - 1;
    }
    String::from_str(s.substring_char(a, b))
}

/// Index of the first `c` in `s` at or after `from` (`s.len()` when absent).
pub fn find_char_from(s: &str, c: char, from: usize) -> (r: usize)
    requires
        from <= s@.len(),
    ensures
        r == find_from(s@, c, from as int),
{
    let n = s.unicode_len();
    let mut i: usize = from;
    while i < n && s.get_char(i) != c
        invariant
            n == s@.len(),
            from <= i <= n,
            find_from(s@, c, from as int) == find_from(s@, c, i as int),
        decreases n - i,
    {
        i = i + 1;
    }
    i
}

/// `str::trim_start_matches(c)` for a single character.
pub fn strip_leading_char(s: &str, c: char) -> (r: String)
    ensures
        r@ == strip_leading(s@, c),
{
    let n = s.unicode_len();
    let mut i: usize = 0;
    while i < n && s.get_char(i) == c
        invariant
            n == s@.len(),
            i <= n,
            char_run_end(s@, c, 0) == char_run_end(s@, c, i as int),
        decreases n - i,
    {
        i = i + 1;
    }
    String::from_str(s.substring_char(i, n))
}

/// `str::starts_with` for a single character.
pub fn starts_with_ch(s: &str, c: char) -> (r: bool)
    ensures
        r == starts_with_char(s@, c),
{
    s.unicode_len() > 0 && s.get_char(0) == c
}

/// Whether `needle` occurs in `s` at character index `i`.
fn occurs_at_exec(s: &str, needle: &str, i: usize) -> (r: bool)
    requires
        i + needle@.len() <= s@.len(),
    ensures
        r == occurs_at(s@, needle@, i as int),
{
    let n = s.unicode_len();
    let m = needle.unicode_len();
    let mut j: usize = 0;
    while j < m
        invariant
            n == s@.len(),
            m == needle@.len(),
            i + m <= s@.len(),
            j <= m,
            forall|k: int| 0 <= k < j ==> s@[i + k] == needle@[k],
        decreases m - j,
    {
        if s.get_char(i + j) != needle.get_char(j) {
            assert(s@.subrange(i as int, i + m)[j as int] != needle@[j as int]);
            return false;
        }
        j = j + 1;
    }
    assert(s@.subrange(i as int, i + m) =~= needle@);
    true
}

/// `str::contains` with a `&str` pattern.
pub fn contains_str(s: &str, needle: &str) -> (r: bool)
    ensures
        r == contains_seq(s@, needle@),
{
    let n = s.unicode_len();
    let m = needle.unicode_len();
    if m > n {
        assert forall|i: int| !occurs_at(s@, needle@, i) by {}
        return false;
    }
    let mut i: usize = 0;
    while i < n - m
        invariant
            n == s@.len(),
            m == needle@.len(),
            m <= n,
            i <= n - m,
            forall|k: int| 0 <= k < i ==> !occurs_at(s@, needle@, k),
        decreases n - m - i,
    {
        if occurs_at_exec(s, needle, i) {
            return true;
        }
        i = i + 1;
    }
    if occurs_at_exec(s, needle, i) {
        return true;
    }
    assert forall|k: int| !occurs_at(s@, needle@, k) by {
        if 0 <= k && k + m <= n {
            assert(k <= i);
        }
    }
    false
}


/// Whether two strings hold the same characters.
pub fn eq_str(a: &str, b: &str) -> (r: bool)
    ensures
        r == (a@ == b@),
{
    String::from_str(a) == String::from_str(b)
}

} // verus!
