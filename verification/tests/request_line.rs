use cerial::version::HttpVersion;
use cerial::Cerial;

fn value<'a>(request: &'a Cerial, key: &str) -> Option<&'a str> {
    request.get_query_param(key).map(|s| s.as_str())
}

#[test]
fn request_line_with_query_is_split() {
    let request = Cerial::parse(b"GET /search?q=rust&empty HTTP/1.1\r\n\r\n").unwrap();
    assert_eq!(request.get_method(), "GET");
    assert_eq!(request.get_path(), "/search");
    assert_eq!(request.get_query().len(), 2);
    assert_eq!(value(&request, "q"), Some("rust"));
    assert_eq!(value(&request, "empty"), Some(""));
    assert_eq!(value(&request, "other"), None);
    assert_eq!(*request.get_version(), HttpVersion::new(1, 1));
    assert_eq!(request.get_version_string(), "HTTP/1.1");
    assert_eq!(request.get_body(), "");
    assert_eq!(request.get_headers().len(), 0);
}

#[test]
fn request_line_without_query_has_no_parameters() {
    let request = Cerial::parse(b"POST /submit HTTP/1.0\r\n\r\n").unwrap();
    assert_eq!(request.get_method(), "POST");
    assert_eq!(request.get_path(), "/submit");
    assert!(request.get_query().is_empty());
    assert_eq!(*request.get_version(), HttpVersion::new(1, 0));
}

#[test]
fn request_line_is_split_on_runs_of_blanks() {
    let request = Cerial::parse(b"  GET \t /a?x=1   HTTP/2.0  \r\n\r\n").unwrap();
    assert_eq!(request.get_method(), "GET");
    assert_eq!(request.get_path(), "/a");
    assert_eq!(value(&request, "x"), Some("1"));
    assert_eq!(*request.get_version(), HttpVersion::new(2, 0));
}

#[test]
fn words_after_the_third_are_ignored() {
    let request = Cerial::parse(b"GET / HTTP/1.0 extra words\r\n\r\n").unwrap();
    assert_eq!(request.get_method(), "GET");
    assert_eq!(request.get_path(), "/");
    assert_eq!(*request.get_version(), HttpVersion::new(1, 0));
}

#[test]
fn missing_version_defaults_to_1_1() {
    let request = Cerial::parse(b"GET /only\r\n\r\n").unwrap();
    assert_eq!(request.get_method(), "GET");
    assert_eq!(request.get_path(), "/only");
    assert_eq!(*request.get_version(), HttpVersion::new(1, 1));
}

#[test]
fn unreadable_version_defaults_to_1_1() {
    let request = Cerial::parse(b"GET / HTTP/x.y\r\n\r\n").unwrap();
    assert_eq!(*request.get_version(), HttpVersion::new(1, 1));
    let request = Cerial::parse(b"GET / HTTP/300.1\r\n\r\n").unwrap();
    assert_eq!(*request.get_version(), HttpVersion::new(1, 1));
}

#[test]
fn missing_target_is_empty() {
    let request = Cerial::parse(b"GET\r\n\r\n").unwrap();
    assert_eq!(request.get_method(), "GET");
    assert_eq!(request.get_path(), "");
    assert!(request.get_query().is_empty());
}

#[test]
fn empty_input_gives_an_empty_request() {
    let request = Cerial::parse(b"").unwrap();
    assert_eq!(request.get_method(), "");
    assert_eq!(request.get_path(), "");
    assert!(request.get_query().is_empty());
    assert_eq!(*request.get_version(), HttpVersion::new(1, 1));
    assert_eq!(request.get_headers().len(), 0);
    assert_eq!(request.get_body(), "");
}

#[test]
fn blank_request_line_gives_empty_method_and_path() {
    let request = Cerial::parse(b"\r\nHost: a\r\n\r\n").unwrap();
    assert_eq!(request.get_method(), "");
    assert_eq!(request.get_path(), "");
    assert_eq!(request.get_header_value("host").map(|s| s.as_str()), Some("a"));
}

#[test]
fn path_is_kept_verbatim() {
    let request = Cerial::parse(b"GET /a%20b/c+d?x=1 HTTP/1.1\r\n\r\n").unwrap();
    assert_eq!(request.get_path(), "/a%20b/c+d");
}

#[test]
fn target_is_cut_at_the_first_question_mark() {
    let request = Cerial::parse(b"GET /p?a=1?b=2 HTTP/1.1\r\n\r\n").unwrap();
    assert_eq!(request.get_path(), "/p");
    assert_eq!(value(&request, "a"), Some("1?b=2"));
}

#[test]
fn parse_path_and_query_splits_a_target() {
    let (path, query) = Cerial::parse_path_and_query("/search?q=rust&empty");
    assert_eq!(path, "/search");
    assert_eq!(query.len(), 2);
    assert_eq!(query.get("q").map(|s| s.as_str()), Some("rust"));
    assert_eq!(query.get("empty").map(|s| s.as_str()), Some(""));

    let (path, query) = Cerial::parse_path_and_query("/plain");
    assert_eq!(path, "/plain");
    assert!(query.is_empty());

    let (path, query) = Cerial::parse_path_and_query("/plain?");
    assert_eq!(path, "/plain");
    assert!(query.is_empty());

    let (path, query) = Cerial::parse_path_and_query("?x=y");
    assert_eq!(path, "");
    assert_eq!(query.get("x").map(|s| s.as_str()), Some("y"));
}

fn pairs(query: &str) -> Vec<(String, String)> {
    let map = Cerial::parse_query_string(query);
    let mut out = Vec::new();
    for i in 0..map.len() {
        let (k, v) = map.entry(i);
        out.push((k.clone(), v.clone()));
    }
    out
}

fn owned(items: &[(&str, &str)]) -> Vec<(String, String)> {
    items.iter().map(|(k, v)| (k.to_string(), v.to_string())).collect()
}

#[test]
fn query_pairs_are_cut_at_the_first_equals_sign() {
    assert_eq!(pairs("a=1&b=2"), owned(&[("a", "1"), ("b", "2")]));
    assert_eq!(pairs("a=b=c"), owned(&[("a", "b=c")]));
    assert_eq!(pairs("k="), owned(&[("k", "")]));
    assert_eq!(pairs("=v"), owned(&[("", "v")]));
    assert_eq!(pairs("="), owned(&[("", "")]));
}

#[test]
fn query_pair_without_equals_sign_has_an_empty_value() {
    assert_eq!(pairs("flag"), owned(&[("flag", "")]));
    assert_eq!(pairs("a=1&flag&b=2"), owned(&[("a", "1"), ("flag", ""), ("b", "2")]));
}

#[test]
fn query_empty_pairs_add_nothing() {
    assert_eq!(pairs(""), owned(&[]));
    assert_eq!(pairs("&"), owned(&[]));
    assert_eq!(pairs("a=1&&b=2&"), owned(&[("a", "1"), ("b", "2")]));
}

#[test]
fn query_later_duplicate_keys_overwrite_earlier_ones() {
    assert_eq!(pairs("a=1&b=2&a=3"), owned(&[("a", "3"), ("b", "2")]));
    assert_eq!(pairs("a&a=1"), owned(&[("a", "1")]));
}

#[test]
fn query_pair_with_percent_sign_is_cut_there() {
    assert_eq!(pairs("a%20b=c"), owned(&[("a", "20b=c")]));
    assert_eq!(pairs("k=v%21"), owned(&[("k=v", "21")]));
    assert_eq!(pairs("k%"), owned(&[("k", "")]));
    assert_eq!(pairs("%41"), owned(&[("", "41")]));
    assert_eq!(pairs("x=1&n%C3%A9=2"), owned(&[("x", "1"), ("n", "C3%A9=2")]));
}

#[test]
fn query_keeps_text_outside_ascii() {
    assert_eq!(pairs("né=ü&日本=語"), owned(&[("né", "ü"), ("日本", "語")]));
}
