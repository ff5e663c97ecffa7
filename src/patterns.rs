//! The three scans of the URL text, each made by the `regex` crate, and the
//! spans that they find, stated over the characters of the input.
//!
//! The crate's matching is leftmost-first: of the matches that start
//! earliest, the one that its greedy repetitions prefer. Outside a class `.`
//! is any character but a line feed; a negated class takes a line feed too.
use vstd::prelude::*;

verus! {

/// The first index at or after `i` (with `0 <= i`) where `s` holds `c`, or `s.len()`.
pub open spec fn next_index_of(s: Seq<char>, c: char, i: int) -> int
    decreases s.len() - i,
{
    if i >= s.len() {
        s.len() as int
    } else if s[i] == c {
        i
    } else {
        next_index_of(s, c, i + 1)
    }
}

/// The first index at or after `i` where `s` holds `?` or `#`, or `s.len()`.
pub open spec fn next_query_or_fragment(s: Seq<char>, i: int) -> int
    decreases s.len() - i,
{
    if i >= s.len() {
        s.len() as int
    } else if s[i] == '?' || s[i] == '#' {
        i
    } else {
        next_query_or_fragment(s, i + 1)
    }
}

/// The start of the line that holds position `i`: just past the last line
/// feed before `i`, or `0`.
pub open spec fn line_start(s: Seq<char>, i: int) -> int
    decreases i,
{
    if i <= 0 {
        0
    } else if s[i - 1] == '\n' {
        i
    } else {
        line_start(s, i - 1)
    }
}

/// The last index below `hi`, and at or above `lo`, where `s` holds `c`; `lo - 1` where none is.
pub open spec fn last_index_of_below(s: Seq<char>, c: char, lo: int, hi: int) -> int
    decreases hi - lo,
{
    if hi <= lo {
        lo - 1
    } else if s[hi - 1] == c {
        hi - 1
    } else {
        last_index_of_below(s, c, lo, hi - 1)
    }
}

/// Whether `c` lies in the class `[A-z]`: from `A` to `z` in code order.
pub open spec fn in_letter_range(c: char) -> bool {
    'A' <= c && c <= 'z'
}

/// The end of the run of `[A-z]` characters that starts at `i`.
pub open spec fn letter_run_end(s: Seq<char>, i: int) -> int
    decreases s.len() - i,
{
    if i >= s.len() {
        s.len() as int
    } else if in_letter_range(s[i]) {
        letter_run_end(s, i + 1)
    } else {
        i
    }
}

/// The span that `.*\.[A-z]*` finds in `s`: from the start of the first line
/// that holds a dot, through the last dot of that line and the run of
/// `[A-z]` after it.
pub open spec fn host_span(s: Seq<char>) -> Option<(int, int)> {
    let first_dot = next_index_of(s, '.', 0);
    if first_dot == s.len() {
        None
    } else {
        let line_end = next_index_of(s, '\n', first_dot);
        let last_dot = last_index_of_below(s, '.', first_dot, line_end);
        Some((line_start(s, first_dot), letter_run_end(s, last_dot + 1)))
    }
}

/// The characters of `http://`.
pub open spec fn http_prefix() -> Seq<char> {
    seq!['h', 't', 't', 'p', ':', '/', '/']
}

/// The characters of `https://`.
pub open spec fn https_prefix() -> Seq<char> {
    seq!['h', 't', 't', 'p', 's', ':', '/', '/']
}

/// Where what follows `https?://` begins, when one of the two stands at `p`; else `-1`.
pub open spec fn after_scheme(s: Seq<char>, p: int) -> int {
    if crate::text::occurs_at(s, http_prefix(), p) {
        p + 7
    } else if crate::text::occurs_at(s, https_prefix(), p) {
        p + 8
    } else {
        -1
    }
}

/// Where the `path` group starts, when `https?://[^/]+(?P<path>/[^?#]*)`
/// matches at `p`: at the first `/` after the scheme, which must not come
/// first. `-1` where it does not match at `p`.
pub open spec fn path_start_at(s: Seq<char>, p: int) -> int {
    let q = after_scheme(s, p);
    if q < 0 || q >= s.len() || s[q] == '/' {
        -1
    } else {
        let slash = next_index_of(s, '/', q);
        if slash == s.len() {
            -1
        } else {
            slash
        }
    }
}

/// The span of the `path` group in the leftmost match that starts at or after `p`.
pub open spec fn path_span_from(s: Seq<char>, p: int) -> Option<(int, int)>
    decreases s.len() - p,
{
    if p >= s.len() {
        None
    } else if path_start_at(s, p) >= 0 {
        let k = path_start_at(s, p);
        Some((k, next_query_or_fragment(s, k + 1)))
    } else {
        path_span_from(s, p + 1)
    }
}

/// The span of the `path` group of `https?://[^/]+(?P<path>/[^?#]*)` in `s`,
/// where the pattern matches.
pub open spec fn path_span(s: Seq<char>) -> Option<(int, int)> {
    path_span_from(s, 0)
}

/// The span that `\?.*` finds in `s`: from the first `?` to the end of its line.
pub open spec fn query_span(s: Seq<char>) -> Option<(int, int)> {
    let q = next_index_of(s, '?', 0);
    if q == s.len() {
        None
    } else {
        Some((q, next_index_of(s, '\n', q)))
    }
}

/// The characters of `s` in the span `span`.
pub open spec fn in_span(s: Seq<char>, span: (int, int)) -> Seq<char> {
    s.subrange(span.0, span.1)
}

/// `next_index_of` stops at `c` or at the end, and passes no `c`.
pub proof fn lemma_next_index_of(s: Seq<char>, c: char, i: int)
    requires
        0 <= i <= s.len(),
    ensures
        i <= next_index_of(s, c, i) <= s.len(),
        next_index_of(s, c, i) < s.len() ==> s[next_index_of(s, c, i)] == c,
        forall|j: int| i <= j < next_index_of(s, c, i) ==> s[j] != c,
    decreases s.len() - i,
{
    if i < s.len() && s[i] != c {
        lemma_next_index_of(s, c, i + 1);
    }
}

/// A position with no `c` before it from `i`, which holds `c` or is the end,
/// is where `next_index_of` stops.
pub proof fn lemma_next_index_of_is(s: Seq<char>, c: char, i: int, r: int)
    requires
        0 <= i <= r <= s.len(),
        r == s.len() || s[r] == c,
        forall|j: int| i <= j < r ==> s[j] != c,
    ensures
        next_index_of(s, c, i) == r,
    decreases r - i,
{
    if i < r {
        lemma_next_index_of_is(s, c, i + 1, r);
    }
}

/// `next_query_or_fragment` stops at `?`, `#` or the end, and passes neither.
pub proof fn lemma_next_query_or_fragment(s: Seq<char>, i: int)
    requires
        0 <= i <= s.len(),
    ensures
        i <= next_query_or_fragment(s, i) <= s.len(),
    decreases s.len() - i,
{
    if i < s.len() && s[i] != '?' && s[i] != '#' {
        lemma_next_query_or_fragment(s, i + 1);
    }
}

/// A position with no `?` or `#` before it from `i`, which holds one of them
/// or is the end, is where `next_query_or_fragment` stops.
pub proof fn lemma_next_query_or_fragment_is(s: Seq<char>, i: int, r: int)
    requires
        0 <= i <= r <= s.len(),
        r == s.len() || s[r] == '?' || s[r] == '#',
        forall|j: int| i <= j < r ==> s[j] != '?' && s[j] != '#',
    ensures
        next_query_or_fragment(s, i) == r,
    decreases r - i,
{
    if i < r {
        lemma_next_query_or_fragment_is(s, i + 1, r);
    }
}

/// The start of a line lies at or before the position, just past a line feed.
pub proof fn lemma_line_start(s: Seq<char>, i: int)
    requires
        0 <= i <= s.len(),
    ensures
        0 <= line_start(s, i) <= i,
        line_start(s, i) > 0 ==> s[line_start(s, i) - 1] == '\n',
        forall|j: int| line_start(s, i) <= j < i ==> s[j] != '\n',
    decreases i,
{
    if i > 0 && s[i - 1] != '\n' {
        lemma_line_start(s, i - 1);
    }
}

/// `last_index_of_below` finds a `c`, or reports none with `lo - 1`, and no
/// `c` lies above it below `hi`.
pub proof fn lemma_last_index_of_below(s: Seq<char>, c: char, lo: int, hi: int)
    requires
        0 <= lo <= hi <= s.len(),
    ensures
        lo - 1 <= last_index_of_below(s, c, lo, hi) < hi,
        last_index_of_below(s, c, lo, hi) >= lo ==> s[last_index_of_below(s, c, lo, hi)] == c,
        forall|j: int| last_index_of_below(s, c, lo, hi) < j < hi ==> s[j] != c,
    decreases hi - lo,
{
    if hi > lo && s[hi - 1] != c {
        lemma_last_index_of_below(s, c, lo, hi - 1);
    }
}

/// The run of `[A-z]` from `i` ends at the end or before a character outside it.
pub proof fn lemma_letter_run_end(s: Seq<char>, i: int)
    requires
        0 <= i <= s.len(),
    ensures
        i <= letter_run_end(s, i) <= s.len(),
        letter_run_end(s, i) < s.len() ==> !in_letter_range(s[letter_run_end(s, i)]),
        forall|j: int| i <= j < letter_run_end(s, i) ==> in_letter_range(s[j]),
    decreases s.len() - i,
{
    if i < s.len() && in_letter_range(s[i]) {
        lemma_letter_run_end(s, i + 1);
    }
}

/// The span of the host scan lies within the text, and holds a dot.
pub proof fn lemma_host_span(s: Seq<char>)
    ensures
        host_span(s) is Some ==> {
            let (a, b) = host_span(s)->0;
            0 <= a < b <= s.len()
        },
        host_span(s) is None <==> forall|j: int| 0 <= j < s.len() ==> s[j] != '.',
{
    lemma_next_index_of(s, '.', 0);
    let first_dot = next_index_of(s, '.', 0);
    if first_dot < s.len() {
        lemma_line_start(s, first_dot);
        lemma_next_index_of(s, '\n', first_dot);
        let line_end = next_index_of(s, '\n', first_dot);
        lemma_last_index_of_below(s, '.', first_dot, line_end);
        let last_dot = last_index_of_below(s, '.', first_dot, line_end);
        assert(last_dot >= first_dot);
        lemma_letter_run_end(s, last_dot + 1);
    }
}

/// The span of the path group lies within the text and starts with `/`.
pub proof fn lemma_path_span_from(s: Seq<char>, p: int)
    requires
        0 <= p,
    ensures
        path_span_from(s, p) is Some ==> {
            let (k, e) = path_span_from(s, p)->0;
            0 <= k < e <= s.len() && s[k] == '/'
        },
    decreases s.len() - p,
{
    if p < s.len() {
        if path_start_at(s, p) >= 0 {
            let q = after_scheme(s, p);
            lemma_next_index_of(s, '/', q);
            let k = path_start_at(s, p);
            lemma_next_query_or_fragment(s, k + 1);
        } else {
            lemma_path_span_from(s, p + 1);
        }
    }
}

/// The span of the query scan lies within the text and starts with `?`.
pub proof fn lemma_query_span(s: Seq<char>)
    ensures
        query_span(s) is Some ==> {
            let (a, b) = query_span(s)->0;
            0 <= a < b <= s.len() && s[a] == '?'
        },
{
    lemma_next_index_of(s, '?', 0);
    let q = next_index_of(s, '?', 0);
    if q < s.len() {
        lemma_next_index_of(s, '\n', q);
        assert(s[q] != '\n');
    }
}

/// Relies on `regex::Regex::find` with the pattern `.*\.[A-z]*`: the text of
/// the leftmost-first match, as characters.
#[verifier::external_body]
pub(crate) fn find_host(s: &str) -> (r: Option<Vec<char>>)
    ensures
        r is Some <==> host_span(s@) is Some,
        r is Some ==> r->0@ == in_span(s@, host_span(s@)->0),
{
    let re = regex::Regex::new(r".*\.[A-z]*").expect("the pattern is valid");
    re.find(s).map(|m| m.as_str().chars().collect())
}

/// Relies on `regex::Regex::captures` with the pattern
/// `https?://[^/]+(?P<path>/[^?#]*)`: whether it matches, and the text of its
/// `path` group, which takes part in every match.
#[verifier::external_body]
pub(crate) fn find_path(s: &str) -> (r: Option<Option<String>>)
    ensures
        r is Some <==> path_span(s@) is Some,
        r is Some ==> r->0 is Some && r->0->0@ == in_span(s@, path_span(s@)->0),
{
    let re = regex::Regex::new(r"https?://[^/]+(?P<path>/[^?#]*)").expect("the pattern is valid");
    re.captures(s).map(|c| c.name("path").map(|m| m.as_str().to_string()))
}

/// Relies on `regex::Regex::find` with the pattern `\?.*`: the text of the
/// leftmost-first match.
#[verifier::external_body]
pub(crate) fn find_query(s: &str) -> (r: Option<String>)
    ensures
        r is Some <==> query_span(s@) is Some,
        r is Some ==> r->0@ == in_span(s@, query_span(s@)->0),
{
    let re = regex::Regex::new(r"\?.*").expect("the pattern is valid");
    re.find(s).map(|m| m.as_str().to_string())
}

} // verus!
