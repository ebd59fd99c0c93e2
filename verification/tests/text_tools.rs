use cerial::fields::{add_parts, decode_pairs, read_entry, split_target, Rule};
use cerial::headers::{add_line, content_type, content_type_params, cookies, first};
use cerial::maps::{HeaderMap, StrMap};
use cerial::number::{decimal_digit, digit, parse_number, push_decimal};
use cerial::octets::{text_lossy, text_of_bytes};
use cerial::text::{
    chars_of, contains, find, find_in, find_last, same, slice, split, split_first,
    split_word, str_eq, string_of, strip, trim, CharClass,
};

fn chars(s: &str) -> Vec<char> {
    s.chars().collect()
}

fn string(s: &[char]) -> String {
    s.iter().collect()
}

#[test]
fn blank_class_is_unicode_white_space() {
    let mut c = '\0';
    loop {
        assert_eq!(CharClass::Blank.contains(c), c.is_whitespace(), "{:?}", c);
        if c == char::MAX {
            break;
        }
        c = match char::from_u32(c as u32 + 1) {
            Some(next) => next,
            None => '\u{E000}',
        };
    }
}

#[test]
fn only_class_holds_one_character() {
    assert!(CharClass::Only(':').contains(':'));
    assert!(!CharClass::Only(':').contains(';'));
    assert!(!CharClass::Only(' ').contains('\t'));
}

#[test]
fn find_gives_the_first_occurrence_or_the_length() {
    assert_eq!(find(&chars("a:b:c"), ':'), 1);
    assert_eq!(find(&chars(":a"), ':'), 0);
    assert_eq!(find(&chars("abc"), ':'), 3);
    assert_eq!(find(&chars(""), ':'), 0);
    assert_eq!(find(&chars("é:ü"), ':'), 1);
    assert_eq!(find_in(&chars("ab \tc"), CharClass::Blank), 2);
    assert_eq!(find_in(&chars("abc"), CharClass::Blank), 3);
}

#[test]
fn find_last_gives_the_last_occurrence() {
    assert_eq!(find_last(&chars("a/b/c"), '/'), Some(3));
    assert_eq!(find_last(&chars("/"), '/'), Some(0));
    assert_eq!(find_last(&chars("abc"), '/'), None);
    assert_eq!(find_last(&chars(""), '/'), None);
}

#[test]
fn slice_takes_a_part() {
    let text = chars("hello");
    assert_eq!(string(slice(&text, 1, 3)), "el");
    assert_eq!(string(slice(&text, 0, 5)), "hello");
    assert_eq!(string(slice(&text, 5, 5)), "");
}

#[test]
fn split_first_cuts_at_the_first_separator() {
    let text = chars("a=b=c");
    let (head, tail) = split_first(&text, '=');
    assert_eq!(string(head), "a");
    assert_eq!(tail.map(string), Some("b=c".to_string()));
    let text = chars("abc");
    let (head, tail) = split_first(&text, '=');
    assert_eq!(string(head), "abc");
    assert_eq!(tail.map(string), None);
    let text = chars("abc=");
    let (head, tail) = split_first(&text, '=');
    assert_eq!(string(head), "abc");
    assert_eq!(tail.map(string), Some(String::new()));
}

fn parts(text: &str, sep: char) -> Vec<String> {
    let text = chars(text);
    split(&text, sep).into_iter().map(string).collect()
}

#[test]
fn split_gives_one_part_more_than_separators() {
    assert_eq!(parts("a&b&c", '&'), vec!["a", "b", "c"]);
    assert_eq!(parts("", '&'), vec![""]);
    assert_eq!(parts("&", '&'), vec!["", ""]);
    assert_eq!(parts("a&&b&", '&'), vec!["a", "", "b", ""]);
    assert_eq!(parts("abc", '&'), vec!["abc"]);
}

#[test]
fn trim_strips_blanks_from_both_ends() {
    assert_eq!(string(trim(&chars("  a b \r\n"))), "a b");
    assert_eq!(string(trim(&chars("\u{3000}x\u{a0}"))), "x");
    assert_eq!(string(trim(&chars(" \t\r\n"))), "");
    assert_eq!(string(trim(&chars(""))), "");
    assert_eq!(string(trim(&chars("abc"))), "abc");
    for text in ["  a b \r\n", "\u{2003}é \u{85}", "x", "", " \u{200b} "] {
        assert_eq!(string(trim(&chars(text))), text.trim());
    }
}

#[test]
fn strip_removes_every_leading_and_trailing_quote() {
    let quote = CharClass::Only('"');
    assert_eq!(string(strip(&chars("\"a\""), quote)), "a");
    assert_eq!(string(strip(&chars("\"\"a\"b\"\"\""), quote)), "a\"b");
    assert_eq!(string(strip(&chars("\"\""), quote)), "");
    assert_eq!(string(strip(&chars(" \"a\""), quote)), " \"a");
}

#[test]
fn split_word_takes_the_first_word() {
    let text = chars("  GET  /path HTTP/1.1\r\n");
    let (word, rest) = split_word(&text);
    assert_eq!(string(word), "GET");
    assert_eq!(string(rest), "  /path HTTP/1.1\r\n");
    let (word, rest) = split_word(rest);
    assert_eq!(string(word), "/path");
    let (word, rest) = split_word(rest);
    assert_eq!(string(word), "HTTP/1.1");
    assert_eq!(string(rest), "\r\n");
    let (word, rest) = split_word(rest);
    assert_eq!(string(word), "");
    assert_eq!(string(rest), "");
}

#[test]
fn same_compares_character_by_character() {
    assert!(same(&chars("abc"), &chars("abc")));
    assert!(same(&chars(""), &chars("")));
    assert!(!same(&chars("abc"), &chars("abd")));
    assert!(!same(&chars("abc"), &chars("ab")));
    assert!(!same(&chars("ab"), &chars("abc")));
}

#[test]
fn contains_looks_for_a_contiguous_run() {
    assert!(contains(&chars("gzip, chunked"), &chars("chunked")));
    assert!(contains(&chars("chunked"), &chars("chunked")));
    assert!(contains(&chars("abc"), &chars("")));
    assert!(contains(&chars(""), &chars("")));
    assert!(contains(&chars("aab"), &chars("ab")));
    assert!(!contains(&chars("chunke"), &chars("chunked")));
    assert!(!contains(&chars("chu nked"), &chars("chunked")));
    assert!(!contains(&chars(""), &chars("a")));
}

#[test]
fn chars_and_strings_convert_both_ways() {
    for text in ["", "abc", "grüße 世界 🦀"] {
        assert_eq!(chars_of(text), chars(text));
        assert_eq!(string_of(&chars(text)), text);
    }
}

#[test]
fn str_eq_compares_texts() {
    assert!(str_eq("", ""));
    assert!(str_eq("héllo", "héllo"));
    assert!(!str_eq("hello", "hellp"));
    assert!(!str_eq("hello", "hell"));
    assert!(!str_eq("a", "A"));
}

#[test]
fn digits_have_their_value_in_a_radix() {
    assert_eq!(digit('0', 10), Some(0));
    assert_eq!(digit('9', 10), Some(9));
    assert_eq!(digit('a', 10), None);
    assert_eq!(digit('a', 16), Some(10));
    assert_eq!(digit('F', 16), Some(15));
    assert_eq!(digit('g', 16), None);
    assert_eq!(digit('G', 16), None);
    assert_eq!(digit('/', 16), None);
    assert_eq!(digit(':', 16), None);
    assert_eq!(digit('@', 16), None);
    assert_eq!(digit('`', 16), None);
    assert_eq!(digit('8', 8), None);
    assert_eq!(digit('٣', 10), None);
    for c in ['0', '7', '9', 'a', 'f', 'g', 'A', 'F', 'G', ' ', '+', 'é'] {
        assert_eq!(digit(c, 10), c.to_digit(10).map(|d| d as usize));
        assert_eq!(digit(c, 16), c.to_digit(16).map(|d| d as usize));
    }
}

#[test]
fn parse_number_reads_decimal_numbers() {
    let read = |s: &str, max: usize| parse_number(&chars(s), 10, max);
    assert_eq!(read("0", 255), Some(0));
    assert_eq!(read("255", 255), Some(255));
    assert_eq!(read("256", 255), None);
    assert_eq!(read("0255", 255), Some(255));
    assert_eq!(read("+7", 255), Some(7));
    assert_eq!(read("++7", 255), None);
    assert_eq!(read("+", 255), None);
    assert_eq!(read("", 255), None);
    assert_eq!(read("-7", 255), None);
    assert_eq!(read("7 ", 255), None);
    assert_eq!(read("2560", 255), None);
    assert_eq!(read("25a", 255), None);
    assert_eq!(read("999a", 255), None);
    assert_eq!(read("18446744073709551615", usize::MAX), "18446744073709551615".parse().ok());
    assert_eq!(read("18446744073709551616", usize::MAX), "18446744073709551616".parse().ok());
    for s in ["12", "+12", "012", "", "+", "1_000", "4294967295", "4294967296"] {
        assert_eq!(read(s, usize::MAX), s.parse::<usize>().ok(), "{}", s);
        assert_eq!(read(s, 255), s.parse::<u8>().ok().map(|n| n as usize), "{}", s);
    }
}

#[test]
fn parse_number_reads_hexadecimal_numbers() {
    let read = |s: &str| parse_number(&chars(s), 16, usize::MAX);
    assert_eq!(read("0"), Some(0));
    assert_eq!(read("ff"), Some(255));
    assert_eq!(read("FF"), Some(255));
    assert_eq!(read("1aB"), Some(0x1ab));
    assert_eq!(read("+10"), Some(16));
    assert_eq!(read("0x10"), None);
    assert_eq!(read("g"), None);
    assert_eq!(read(""), None);
    for s in ["7f", "ffffffff", "ffffffffffffffff", "10000000000000000", "00000000000000000001"] {
        assert_eq!(read(s), usize::from_str_radix(s, 16).ok(), "{}", s);
    }
}

#[test]
fn decimal_text_has_no_leading_zeros() {
    for (n, text) in [(0, "0"), (7, "7"), (10, "10"), (255, "255"), (1048576, "1048576")] {
        let mut out = vec!['#'];
        push_decimal(&mut out, n);
        assert_eq!(string(&out), format!("#{}", text));
    }
    let mut out = Vec::new();
    push_decimal(&mut out, usize::MAX);
    assert_eq!(string(&out), usize::MAX.to_string());
    for d in 0..10u8 {
        assert_eq!(decimal_digit(d), char::from(b'0' + d));
    }
}

#[test]
fn str_map_keeps_the_last_value_of_a_key() {
    let mut map = StrMap::new();
    assert!(map.is_empty());
    assert_eq!(map.len(), 0);
    map.insert("a".to_string(), "1".to_string());
    map.insert("b".to_string(), "2".to_string());
    map.insert("a".to_string(), "3".to_string());
    assert!(!map.is_empty());
    assert_eq!(map.len(), 2);
    assert_eq!(map.get("a"), Some(&"3".to_string()));
    assert_eq!(map.get("b"), Some(&"2".to_string()));
    assert_eq!(map.get("c"), None);
    assert!(map.contains_key("a"));
    assert!(!map.contains_key("A"));
    assert_eq!(map.entry(0), (&"a".to_string(), &"3".to_string()));
    assert_eq!(map.entry(1), (&"b".to_string(), &"2".to_string()));
}

#[test]
fn header_map_appends_under_one_name() {
    let mut map = HeaderMap::new();
    assert_eq!(map.len(), 0);
    map.append("accept".to_string(), "a".to_string());
    map.append("host".to_string(), "h".to_string());
    map.append("accept".to_string(), "b".to_string());
    map.append("accept".to_string(), "a".to_string());
    assert_eq!(map.len(), 2);
    assert_eq!(map.get("accept"), Some(&vec!["a".to_string(), "b".to_string(), "a".to_string()]));
    assert_eq!(map.get("host"), Some(&vec!["h".to_string()]));
    assert_eq!(map.get("Host"), None);
    assert_eq!(first(&map, "accept"), Some(&"a".to_string()));
    assert_eq!(first(&map, "none"), None);
}

#[test]
fn header_lines_are_added_to_a_map() {
    let mut map = HeaderMap::new();
    add_line(&mut map, &chars("Content-Type: Text/Plain; charset=utf-8\r\n"));
    add_line(&mut map, &chars("no colon here\r\n"));
    add_line(&mut map, &chars("COOKIE: a=1\r\n"));
    add_line(&mut map, &chars(": nameless\r\n"));
    assert_eq!(map.len(), 3);
    assert_eq!(content_type(&map), Some("text/plain".to_string()));
    assert_eq!(content_type_params(&map).get("charset"), Some(&"utf-8".to_string()));
    assert_eq!(cookies(&map).get("a"), Some(&"1".to_string()));
    assert_eq!(map.get(""), Some(&vec!["nameless".to_string()]));
}

fn entry(rule: Rule, part: &str) -> Option<(String, String)> {
    read_entry(rule, &chars(part))
}

fn pair(key: &str, value: &str) -> Option<(String, String)> {
    Some((key.to_string(), value.to_string()))
}

#[test]
fn parts_are_read_by_their_rule() {
    assert_eq!(entry(Rule::Pair, " A = \"b\" "), pair(" A ", " \"b\" "));
    assert_eq!(entry(Rule::Param, " A = \"b\" "), pair("a", "b"));
    assert_eq!(entry(Rule::Cookie, " A = \"b\" "), pair("A", "\"b\""));
    assert_eq!(entry(Rule::Pair, "word"), pair("word", ""));
    assert_eq!(entry(Rule::Param, "word"), None);
    assert_eq!(entry(Rule::Cookie, "word"), None);
    assert_eq!(entry(Rule::Pair, ""), None);
    assert_eq!(entry(Rule::Pair, "a%3D=b"), pair("a", "3D=b"));
    assert_eq!(entry(Rule::Param, "a%3D=b"), pair("a%3d", "b"));
    assert_eq!(entry(Rule::Cookie, "a%3D=b"), pair("a%3D", "b"));
}

#[test]
fn parts_are_added_from_a_position_on() {
    let text = chars("skip=0;a=1;b=2;a=3");
    let segments = split(&text, ';');
    let mut map = StrMap::new();
    map.insert("b".to_string(), "old".to_string());
    add_parts(Rule::Cookie, &mut map, &segments, 1);
    assert_eq!(map.len(), 2);
    assert_eq!(map.get("a"), Some(&"3".to_string()));
    assert_eq!(map.get("b"), Some(&"2".to_string()));
    assert_eq!(map.get("skip"), None);
    add_parts(Rule::Cookie, &mut map, &segments, 4);
    assert_eq!(map.len(), 2);
}

#[test]
fn pairs_and_targets_are_decoded_from_characters() {
    let map = decode_pairs(&chars("a=1&b"));
    assert_eq!(map.get("a"), Some(&"1".to_string()));
    assert_eq!(map.get("b"), Some(&String::new()));
    let (path, query) = split_target(&chars("/p?x=y"));
    assert_eq!(path, "/p");
    assert_eq!(query.get("x"), Some(&"y".to_string()));
}

#[test]
fn strict_decoding_accepts_valid_utf8_only() {
    assert_eq!(text_of_bytes(b"plain"), Some("plain".to_string()));
    assert_eq!(text_of_bytes("grüße 世界 🦀".as_bytes()), Some("grüße 世界 🦀".to_string()));
    assert_eq!(text_of_bytes(b""), Some(String::new()));
    assert_eq!(text_of_bytes(b"\xff"), None);
    assert_eq!(text_of_bytes(b"a\xc3"), None);
    assert_eq!(text_of_bytes(b"\xc0\xaf"), None);
    assert_eq!(text_of_bytes(b"\xed\xa0\x80"), None);
    assert_eq!(text_of_bytes(b"\xf4\x90\x80\x80"), None);
}

#[test]
fn lossy_decoding_replaces_what_is_not_utf8() {
    assert_eq!(text_lossy(b"plain"), "plain");
    assert_eq!(text_lossy("grüße".as_bytes()), "grüße");
    assert_eq!(text_lossy(b"a\xffb"), "a\u{FFFD}b");
    assert_eq!(text_lossy(b"\xc3"), "\u{FFFD}");
    assert_eq!(text_lossy(b""), "");
}
