use cerial::buffer::read_request;
use cerial::maps::HeaderMap;
use cerial::parser::{ParseLimits, Warning};
use cerial::{Cerial, ReadError};

fn limits(max_header_bytes: usize, max_body_bytes: usize) -> ParseLimits {
    ParseLimits { max_header_bytes, max_body_bytes }
}

fn values(request: &Cerial, name: &str) -> Option<Vec<String>> {
    request.get_header(name).cloned()
}

fn first<'a>(request: &'a Cerial, name: &str) -> Option<&'a str> {
    request.get_header_value(name).map(|s| s.as_str())
}

fn list(items: &[&str]) -> Option<Vec<String>> {
    Some(items.iter().map(|s| s.to_string()).collect())
}

#[test]
fn header_names_are_case_insensitive() {
    let request = Cerial::parse(b"GET / HTTP/1.1\r\nContent-Type: text/html\r\n\r\n").unwrap();
    assert_eq!(first(&request, "content-type"), Some("text/html"));
    assert_eq!(first(&request, "CONTENT-TYPE"), Some("text/html"));
    assert_eq!(first(&request, "Content-Type"), Some("text/html"));
    assert_eq!(values(&request, "content-type"), list(&["text/html"]));
    assert_eq!(values(&request, "CONTENT-TYPE"), list(&["text/html"]));
    assert_eq!(values(&request, "content-length"), None);
    assert_eq!(first(&request, "content-length"), None);
}

#[test]
fn header_names_are_stored_in_lowercase() {
    let request = Cerial::parse(b"GET / HTTP/1.1\r\nX-Custom-HEADER: v\r\n\r\n").unwrap();
    let headers = request.get_headers();
    assert_eq!(headers.len(), 1);
    let (name, stored) = headers.entry(0);
    assert_eq!(name, "x-custom-header");
    assert_eq!(stored, &vec!["v".to_string()]);
    assert!(headers.get("x-custom-header").is_some());
    assert!(headers.get("X-Custom-HEADER").is_none());
}

#[test]
fn repeated_header_keeps_both_values_in_arrival_order() {
    let raw = b"GET / HTTP/1.1\r\nAccept: text/html\r\nHost: a\r\nACCEPT: application/json\r\n\r\n";
    let request = Cerial::parse(raw).unwrap();
    assert_eq!(values(&request, "accept"), list(&["text/html", "application/json"]));
    assert_eq!(first(&request, "Accept"), Some("text/html"));
    assert_eq!(request.get_headers().len(), 2);
    assert_eq!(values(&request, "host"), list(&["a"]));
}

#[test]
fn header_name_and_value_are_trimmed() {
    let request = Cerial::parse(b"GET / HTTP/1.1\r\n  Host  :   example.org  \r\n\r\n").unwrap();
    assert_eq!(first(&request, "host"), Some("example.org"));
}

#[test]
fn header_line_is_cut_at_the_first_colon() {
    let request = Cerial::parse(b"GET / HTTP/1.1\r\nHost: example.org:8080\r\n\r\n").unwrap();
    assert_eq!(first(&request, "host"), Some("example.org:8080"));
}

#[test]
fn header_with_empty_value_is_recorded() {
    let request = Cerial::parse(b"GET / HTTP/1.1\r\nX-Empty:\r\n\r\n").unwrap();
    assert_eq!(values(&request, "x-empty"), list(&[""]));
}

#[test]
fn header_line_without_colon_is_dropped() {
    let request = Cerial::parse(b"GET / HTTP/1.1\r\nnot a header\r\nHost: a\r\n\r\n").unwrap();
    assert_eq!(request.get_headers().len(), 1);
    assert_eq!(first(&request, "host"), Some("a"));
}

#[test]
fn header_lines_may_end_in_a_bare_line_feed() {
    let request = Cerial::parse(b"GET / HTTP/1.1\nHost: a\nContent-Length: 2\n\nhi").unwrap();
    assert_eq!(first(&request, "host"), Some("a"));
    assert_eq!(request.get_body(), "hi");
}

#[test]
fn end_of_input_in_the_header_block_keeps_what_was_read() {
    let request = Cerial::parse(b"GET / HTTP/1.1\r\nHost: a\r\nContent-Length: 5\r\n").unwrap();
    assert_eq!(first(&request, "host"), Some("a"));
    assert_eq!(first(&request, "content-length"), Some("5"));
    assert_eq!(request.get_body(), "");

    let request = Cerial::parse(b"GET / HTTP/1.1\r\nHost: a").unwrap();
    assert_eq!(first(&request, "host"), Some("a"));
}

#[test]
fn header_block_over_the_limit_is_cut_without_failure() {
    // The three header lines take 10, 10 and 19 bytes.
    let raw = b"GET / HTTP/1.1\r\nA: 12345\r\nB: 12345\r\nContent-Length: 3\r\n\r\nabc";
    let reading = read_request(raw, limits(20, 1024)).ok().unwrap();
    assert_eq!(first(&reading.request, "a"), Some("12345"));
    assert_eq!(first(&reading.request, "b"), Some("12345"));
    assert_eq!(first(&reading.request, "content-length"), None);
    assert_eq!(reading.request.get_headers().len(), 2);
    assert_eq!(reading.request.get_body(), "");
    assert_eq!(reading.warnings, vec![Warning::HeaderLimit]);
    assert_eq!(reading.consumed, 16 + 10 + 10 + 19);
}

#[test]
fn header_block_exactly_at_the_limit_is_read_in_full() {
    let raw = b"GET / HTTP/1.1\r\nA: 12345\r\nContent-Length: 3\r\n\r\nabc";
    let reading = read_request(raw, limits(10 + 19 + 2, 1024)).ok().unwrap();
    assert_eq!(reading.request.get_headers().len(), 2);
    assert_eq!(reading.request.get_body(), "abc");
    assert!(reading.warnings.is_empty());
    assert_eq!(reading.consumed, raw.len());
}

#[test]
fn blank_line_over_the_limit_ends_the_request_without_body() {
    let raw = b"GET / HTTP/1.1\r\nContent-Length: 3\r\n\r\nabc";
    let reading = read_request(raw, limits(19 + 1, 1024)).ok().unwrap();
    assert_eq!(first(&reading.request, "content-length"), Some("3"));
    assert_eq!(reading.request.get_body(), "");
    assert_eq!(reading.warnings, vec![Warning::HeaderLimit]);
}

#[test]
fn header_limit_of_zero_keeps_no_header() {
    let request = Cerial::parse_with_limits(b"GET /x HTTP/1.1\r\nHost: a\r\n\r\n", 0, 10).unwrap();
    assert_eq!(request.get_method(), "GET");
    assert_eq!(request.get_path(), "/x");
    assert_eq!(request.get_headers().len(), 0);
}

#[test]
fn request_line_does_not_count_toward_the_header_limit() {
    let raw = b"GET /a/very/long/path/that/is/longer/than/the/limit HTTP/1.1\r\nA: b\r\n\r\n";
    let request = Cerial::parse_with_limits(raw, 8, 10).unwrap();
    assert_eq!(request.get_path(), "/a/very/long/path/that/is/longer/than/the/limit");
    assert_eq!(first(&request, "a"), Some("b"));
}

#[test]
fn header_line_that_is_not_utf8_fails_the_read() {
    let raw = b"GET / HTTP/1.1\r\nHost: \xff\xfe\r\n\r\n";
    assert_eq!(Cerial::parse(raw).err(), Some(ReadError::InvalidText));
    let raw = b"GET /\xc3 HTTP/1.1\r\n\r\n";
    assert_eq!(Cerial::parse(raw).err(), Some(ReadError::InvalidText));
}

#[test]
fn header_values_outside_ascii_are_kept() {
    let raw = "GET / HTTP/1.1\r\nX-Name: Zoë\r\nÉTAT: ok\r\n\r\n";
    let request = Cerial::parse(raw.as_bytes()).unwrap();
    assert_eq!(first(&request, "x-name"), Some("Zoë"));
    assert_eq!(first(&request, "état"), Some("ok"));
    assert_eq!(first(&request, "ÉTAT"), Some("ok"));
}

fn headers(items: &[(&str, &str)]) -> HeaderMap {
    let mut map = HeaderMap::new();
    for (name, value) in items {
        map.append(name.to_string(), value.to_string());
    }
    map
}

#[test]
fn header_map_lists_names_in_order_of_first_arrival() {
    let map = headers(&[("b", "1"), ("a", "2"), ("b", "3")]);
    assert_eq!(map.len(), 2);
    let (name, stored) = map.entry(0);
    assert_eq!(name, "b");
    assert_eq!(stored, &vec!["1".to_string(), "3".to_string()]);
    let (name, stored) = map.entry(1);
    assert_eq!(name, "a");
    assert_eq!(stored, &vec!["2".to_string()]);
    assert_eq!(map.get("c"), None);
}

#[test]
fn content_length_is_read_from_the_first_value() {
    let length = |value: &str| Cerial::extract_content_length_from_map(&headers(&[("content-length", value)]));
    assert_eq!(length("42"), Some(42));
    assert_eq!(length("0"), Some(0));
    assert_eq!(length("007"), Some(7));
    assert_eq!(length("+5"), Some(5));
    assert_eq!(length("-1"), None);
    assert_eq!(length(""), None);
    assert_eq!(length("abc"), None);
    assert_eq!(length("12 34"), None);
    assert_eq!(length("1e3"), None);
    assert_eq!(length("0x10"), None);
    assert_eq!(length("99999999999999999999999999999999999999"), None);
    assert_eq!(length(&usize::MAX.to_string()), Some(usize::MAX));
    assert_eq!(Cerial::extract_content_length_from_map(&headers(&[])), None);
    assert_eq!(
        Cerial::extract_content_length_from_map(&headers(&[("content-length", "1"), ("content-length", "2")])),
        Some(1)
    );
    assert_eq!(Cerial::extract_content_length_from_map(&headers(&[("Content-Length", "1")])), None);
}

#[test]
fn chunked_is_found_in_the_first_transfer_encoding_value() {
    let chunked = |value: &str| Cerial::is_chunked_headers(&headers(&[("transfer-encoding", value)]));
    assert!(chunked("chunked"));
    assert!(chunked("Chunked"));
    assert!(chunked("CHUNKED"));
    assert!(chunked("gzip, chunked"));
    assert!(chunked("xchunkedx"));
    assert!(!chunked("identity"));
    assert!(!chunked("chunke"));
    assert!(!chunked(""));
    assert!(!Cerial::is_chunked_headers(&headers(&[])));
    assert!(!Cerial::is_chunked_headers(&headers(&[
        ("transfer-encoding", "gzip"),
        ("transfer-encoding", "chunked")
    ])));
}

#[test]
fn is_chunked_agrees_with_the_headers() {
    let request = Cerial::parse(b"POST / HTTP/1.1\r\nTransfer-Encoding: Chunked\r\n\r\n0\r\n\r\n").unwrap();
    assert!(request.is_chunked());
    let request = Cerial::parse(b"POST / HTTP/1.1\r\nContent-Length: 0\r\n\r\n").unwrap();
    assert!(!request.is_chunked());
}
