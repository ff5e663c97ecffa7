//! The decomposed address: the host to connect to (with the fixed plaintext
//! port), the request path and the query, found by three independent scans
//! of one input text.
use crate::patterns::{
    find_host, find_path, find_query, host_span, http_prefix, https_prefix, in_letter_range,
    in_span, last_index_of_below, lemma_host_span, lemma_last_index_of_below,
    lemma_letter_run_end, lemma_line_start, lemma_next_index_of, lemma_next_index_of_is,
    lemma_next_query_or_fragment_is, lemma_path_span_from, lemma_query_span, letter_run_end,
    line_start, next_index_of, path_span, query_span,
};
use crate::text::{
    lemma_without_absent, lemma_without_leading, push_text, remove_all, string_of, without,
};
use vstd::prelude::*;

verus! {

/// Why a URL text could not be decomposed.
#[derive(Debug, Clone, Copy, PartialEq, Eq)]
pub enum ParseError {
    /// No part of the text has the shape of a host: no dot in it.
    NoHost,
    /// The path pattern matched without its path group.
    NoPath,
}

/// A URL decomposed for one plaintext GET request.
#[derive(Debug)]
pub struct URI {
    url: String,
    path: String,
    query: String,
}

/// What a `URI` holds: its three fields as characters.
pub struct AddressView {
    pub host: Seq<char>,
    pub path: Seq<char>,
    pub query: Seq<char>,
}

impl View for URI {
    type V = AddressView;

    closed spec fn view(&self) -> AddressView {
        AddressView { host: self.url@, path: self.path@, query: self.query@ }
    }
}

/// The characters of `:80`, the port that every host is given.
pub open spec fn port_suffix() -> Seq<char> {
    seq![':', '8', '0']
}

/// The host field made from the text that the host scan found: every
/// `http://` removed, then every `https://`, then one trailing `/`, and the
/// port appended.
pub open spec fn host_field(found: Seq<char>) -> Seq<char> {
    let t = without(without(found, http_prefix()), https_prefix());
    let trimmed = if t.len() > 0 && t.last() == '/' {
        t.drop_last()
    } else {
        t
    };
    trimmed + port_suffix()
}

/// The path field: the path group where the path pattern matches, else empty.
pub open spec fn path_field(s: Seq<char>) -> Seq<char> {
    match path_span(s) {
        Some(span) => in_span(s, span),
        None => Seq::empty(),
    }
}

/// The query field: from the first `?` to the end of its line, else empty.
pub open spec fn query_field(s: Seq<char>) -> Seq<char> {
    match query_span(s) {
        Some(span) => in_span(s, span),
        None => Seq::empty(),
    }
}

/// The decomposition of the text `s`.
pub open spec fn decompose(s: Seq<char>) -> Result<AddressView, ParseError> {
    match host_span(s) {
        None => Err(ParseError::NoHost),
        Some(span) => Ok(
            AddressView {
                host: host_field(in_span(s, span)),
                path: path_field(s),
                query: query_field(s),
            },
        ),
    }
}

/// The shape of every decomposed address: the host ends with `:80`, the
/// path is empty or starts with `/`, and the query is empty or starts with `?`.
pub open spec fn well_formed(a: AddressView) -> bool {
    &&& a.host.len() >= 3
    &&& a.host.subrange(a.host.len() - 3, a.host.len() as int) == port_suffix()
    &&& a.path.len() == 0 || a.path[0] == '/'
    &&& a.query.len() == 0 || a.query[0] == '?'
}

/// Every address that the decomposition yields is well formed.
pub proof fn lemma_decompose_well_formed(s: Seq<char>)
    ensures
        decompose(s) is Ok ==> well_formed(decompose(s)->Ok_0),
{
    lemma_host_span(s);
    lemma_path_span_from(s, 0);
    lemma_query_span(s);
    if let Ok(a) = decompose(s) {
        let h = a.host;
        assert(h.subrange(h.len() - 3, h.len() as int) =~= port_suffix());
    }
}

/// The text of the GET request for the address `a`.
pub open spec fn request_text(a: AddressView) -> Seq<char> {
    "GET "@ + a.path + a.query + " HTTP/1.1\r\nHost: "@ + a.host
        + "\r\nConnection: close\r\n\r\n"@
}

/// A host written plainly: no `/`, `?`, `#`, `:` or line feed, and a dot
/// followed only by characters of `[A-z]` (such as `example.com`).
pub open spec fn plain_host(h: Seq<char>) -> bool {
    &&& forall|j: int|
        0 <= j < h.len() ==> h[j] != '/' && h[j] != '?' && h[j] != '#' && h[j] != ':' && h[j]
            != '\n'
    &&& exists|d: int|
        0 <= d < h.len() && h[d] == '.' && forall|j: int|
            d < j < h.len() ==> in_letter_range(#[trigger] h[j])
}

/// A path written plainly: a `/` and then no dot, `?`, `#` or line feed.
pub open spec fn plain_path(p: Seq<char>) -> bool {
    &&& p.len() > 0
    &&& p[0] == '/'
    &&& forall|j: int|
        0 <= j < p.len() ==> p[j] != '.' && p[j] != '?' && p[j] != '#' && p[j] != '\n'
}

/// A query written plainly: empty, or a `?` and then no dot or line feed.
pub open spec fn plain_query(q: Seq<char>) -> bool {
    q.len() == 0 || (q[0] == '?' && forall|j: int|
        0 <= j < q.len() ==> q[j] != '.' && q[j] != '\n')
}

/// A URL `http://host/path?query` written plainly decomposes into the host
/// with `:80` appended, the path, and the query (empty where it is absent).
pub proof fn law_plain_url(h: Seq<char>, p: Seq<char>, q: Seq<char>)
    requires
        plain_host(h),
        plain_path(p),
        plain_query(q),
    ensures
        decompose(http_prefix() + h + p + q) == Ok::<AddressView, ParseError>(
            AddressView { host: h + port_suffix(), path: p, query: q },
        ),
{
    let s = http_prefix() + h + p + q;
    let hl = h.len() as int;
    let pl = p.len() as int;
    let n = s.len() as int;
    let d = choose|d: int|
        0 <= d < h.len() && h[d] == '.' && forall|j: int|
            d < j < h.len() ==> in_letter_range(#[trigger] h[j]);
    assert(forall|j: int| 0 <= j < 7 ==> s[j] == http_prefix()[j]);
    assert(forall|j: int| 7 <= j < 7 + hl ==> s[j] == h[j - 7]);
    assert(forall|j: int| 7 + hl <= j < 7 + hl + pl ==> s[j] == p[j - 7 - hl]);
    assert(forall|j: int| 7 + hl + pl <= j < n ==> s[j] == q[j - 7 - hl - pl]);
    assert(forall|j: int| 0 <= j < n ==> s[j] != '\n');
    // the host scan
    lemma_next_index_of(s, '.', 0);
    let first_dot = next_index_of(s, '.', 0);
    assert(s[7 + d] == '.');
    assert(7 <= first_dot <= 7 + d);
    lemma_line_start(s, first_dot);
    assert(line_start(s, first_dot) == 0);
    lemma_next_index_of_is(s, '\n', first_dot, n);
    lemma_last_index_of_below(s, '.', first_dot, n);
    let last_dot = last_index_of_below(s, '.', first_dot, n);
    assert(last_dot >= first_dot);
    assert(last_dot == 7 + d) by {
        if last_dot > 7 + d {
            assert(in_letter_range(h[last_dot - 7]) || last_dot >= 7 + hl);
        }
    }
    lemma_letter_run_end(s, last_dot + 1);
    let run_end = letter_run_end(s, last_dot + 1);
    assert(run_end == 7 + hl) by {
        if run_end > 7 + hl {
            assert(in_letter_range(s[7 + hl]));
        }
        if run_end < 7 + hl {
            assert(in_letter_range(h[run_end - 7]));
        }
    }
    assert(s.subrange(0, 7 + hl) =~= http_prefix() + h);
    lemma_without_leading(http_prefix(), h);
    lemma_without_absent(h, http_prefix(), 4);
    lemma_without_absent(h, https_prefix(), 5);
    assert(h.last() != '/');
    // the path scan
    assert(s.subrange(0, 7) =~= http_prefix());
    lemma_next_index_of_is(s, '/', 7, 7 + hl);
    lemma_next_query_or_fragment_is(s, 8 + hl, 7 + hl + pl);
    assert(s.subrange(7 + hl, 7 + hl + pl) =~= p);
    // the query scan
    if q.len() == 0 {
        lemma_next_index_of_is(s, '?', 0, n);
    } else {
        lemma_next_index_of_is(s, '?', 0, 7 + hl + pl);
        lemma_next_index_of_is(s, '\n', 7 + hl + pl, n);
        assert(s.subrange(7 + hl + pl, n) =~= q);
    }
    assert(query_field(s) =~= q);
}

/// Decomposition depends on the input text alone: equal texts decompose alike.
pub proof fn law_decompose_is_repeatable(s: Seq<char>, t: Seq<char>)
    requires
        s == t,
    ensures
        decompose(s) == decompose(t),
{
}

/// The view of a decomposition's outcome.
pub open spec fn outcome_view(r: Result<URI, ParseError>) -> Result<AddressView, ParseError> {
    match r {
        Ok(u) => Ok(u@),
        Err(e) => Err(e),
    }
}

impl URI {
    /// Decomposes the URL text `uri`; fails with `NoHost` exactly where it
    /// holds no dot.
    pub fn new(uri: &str) -> (r: Result<URI, ParseError>)
        ensures
            outcome_view(r) == decompose(uri@),
            r is Err <==> forall|j: int| 0 <= j < uri@.len() ==> uri@[j] != '.',
            r is Err ==> r == Err::<URI, ParseError>(ParseError::NoHost),
            r is Ok ==> well_formed(r->Ok_0@),
    {
        proof {
            lemma_decompose_well_formed(uri@);
            lemma_host_span(uri@);
        }
        let found = match find_host(uri) {
            Some(found) => found,
            None => return Err(ParseError::NoHost),
        };
        let http = vec!['h', 't', 't', 'p', ':', '/', '/'];
        let https = vec!['h', 't', 't', 'p', 's', ':', '/', '/'];
        assert(http@ =~= http_prefix());
        assert(https@ =~= https_prefix());
        let no_http = remove_all(&found, &http);
        let mut host = remove_all(&no_http, &https);
        if host.len() > 0 && host[host.len() - 1] == '/' {
            host.pop();
        }
        host.push(':');
        host.push('8');
        host.push('0');
        let url = string_of(&host);
        let path = match find_path(uri) {
            None => String::new(),
            Some(None) => return Err(ParseError::NoPath),
            Some(Some(path)) => path,
        };
        let query = match find_query(uri) {
            None => String::new(),
            Some(query) => query,
        };
        let r = URI { url, path, query };
        assert(r@.host =~= decompose(uri@)->Ok_0.host);
        Ok(r)
    }

    /// The host to connect to, with its port.
    pub fn url(&self) -> (r: &str)
        ensures
            r@ == self@.host,
    {
        self.url.as_str()
    }

    /// The request path, empty where the URL has none.
    pub fn path(&self) -> (r: &str)
        ensures
            r@ == self@.path,
    {
        self.path.as_str()
    }

    /// The query with its leading `?`, empty where the URL has none.
    pub fn query(&self) -> (r: &str)
        ensures
            r@ == self@.query,
    {
        self.query.as_str()
    }

    /// The text of the GET request for this address, to be sent as it is.
    pub fn request(&self) -> (r: String)
        ensures
            r@ == request_text(self@),
    {
        let mut r = String::new();
        push_text(&mut r, "GET ");
        push_text(&mut r, self.path.as_str());
        push_text(&mut r, self.query.as_str());
        push_text(&mut r, " HTTP/1.1\r\nHost: ");
        push_text(&mut r, self.url.as_str());
        push_text(&mut r, "\r\nConnection: close\r\n\r\n");
        assert(r@ =~= request_text(self@));
        r
    }
}

} // verus!
