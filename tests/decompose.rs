use bare_http::uri::{ParseError, URI};

fn parts(input: &str) -> (String, String, String) {
    let uri = URI::new(input).expect("the input has a host");
    (uri.url().to_string(), uri.path().to_string(), uri.query().to_string())
}

#[test]
fn https_root_is_downgraded_to_port_80() {
    let (host, path, query) = parts("https://google.com/");
    assert_eq!(host, "google.com:80");
    // the path group takes the slash that follows the host
    assert_eq!(path, "/");
    assert_eq!(query, "");
}

#[test]
fn http_url_with_path_and_query() {
    let (host, path, query) = parts("http://example.com/foo/bar?x=1");
    assert_eq!(host, "example.com:80");
    assert_eq!(path, "/foo/bar");
    assert_eq!(query, "?x=1");
}

#[test]
fn bare_host_has_empty_path_and_query() {
    let (host, path, query) = parts("example.com");
    assert_eq!(host, "example.com:80");
    assert_eq!(path, "");
    assert_eq!(query, "");
}

#[test]
fn text_without_a_dot_has_no_host() {
    assert_eq!(URI::new("localhost").err(), Some(ParseError::NoHost));
    assert_eq!(URI::new("").err(), Some(ParseError::NoHost));
    assert_eq!(URI::new("http://localhost/x?y").err(), Some(ParseError::NoHost));
}

#[test]
fn decomposing_twice_gives_the_same_parts() {
    let input = "http://example.com/foo/bar?x=1";
    assert_eq!(parts(input), parts(input));
    assert_eq!(URI::new("nodot").err(), URI::new("nodot").err());
}

#[test]
fn plain_url_keeps_host_path_and_query() {
    let (host, path, query) = parts("http://www.rust-lang.org/learn/get-started?lang=en&x=y");
    assert_eq!(host, "www.rust-lang.org:80");
    assert_eq!(path, "/learn/get-started");
    assert_eq!(query, "?lang=en&x=y");
}

#[test]
fn plain_url_without_query() {
    let (host, path, query) = parts("http://a.io/x/y/z");
    assert_eq!(host, "a.io:80");
    assert_eq!(path, "/x/y/z");
    assert_eq!(query, "");
}

#[test]
fn fragment_ends_the_path_but_not_the_query() {
    let (host, path, query) = parts("http://example.com/p#frag");
    assert_eq!(host, "example.com:80");
    assert_eq!(path, "/p");
    assert_eq!(query, "");
    let (_, path, query) = parts("http://example.com/p?q=1#frag");
    assert_eq!(path, "/p");
    assert_eq!(query, "?q=1#frag");
}

#[test]
fn scheme_is_removed_anywhere_in_the_host_text() {
    let (host, path, _) = parts("http://http://a.com");
    assert_eq!(host, "a.com:80");
    assert_eq!(path, "//a.com");
    let (host, _, _) = parts("xhttps://y.com");
    assert_eq!(host, "xy.com:80");
}

#[test]
fn host_scan_runs_to_the_last_dot_of_the_line() {
    let (host, path, query) = parts("https://example.com/a.html?v=2");
    assert_eq!(host, "example.com/a.html:80");
    assert_eq!(path, "/a.html");
    assert_eq!(query, "?v=2");
}

#[test]
fn letter_class_spans_from_upper_a_to_lower_z() {
    let (host, _, _) = parts("http://a.b_c`d]e/x");
    assert_eq!(host, "a.b_c`d]e:80");
    let (host, _, _) = parts("http://1.2.3.4/x");
    assert_eq!(host, "1.2.3.:80");
}

#[test]
fn host_and_query_stop_at_a_line_feed() {
    let (host, path, query) = parts("a.com\nb?x=1\nrest");
    assert_eq!(host, "a.com:80");
    assert_eq!(path, "");
    assert_eq!(query, "?x=1");
}

#[test]
fn path_needs_a_host_before_its_slash() {
    let (_, path, _) = parts("http:///a.com/x");
    assert_eq!(path, "");
    let (_, path, query) = parts("http://a.com?x=/y");
    assert_eq!(path, "/y");
    assert_eq!(query, "?x=/y");
}

#[test]
fn request_text_is_exact() {
    let uri = URI::new("http://example.com/foo/bar?x=1").unwrap();
    assert_eq!(
        uri.request(),
        "GET /foo/bar?x=1 HTTP/1.1\r\nHost: example.com:80\r\nConnection: close\r\n\r\n"
    );
    let uri = URI::new("example.com").unwrap();
    assert_eq!(uri.request(), "GET  HTTP/1.1\r\nHost: example.com:80\r\nConnection: close\r\n\r\n");
}

#[test]
fn non_ascii_text_is_kept_whole() {
    let (host, path, query) = parts("http://bücher.de/straße?ä=ö");
    assert_eq!(host, "bücher.de:80");
    assert_eq!(path, "/straße");
    assert_eq!(query, "?ä=ö");
}
