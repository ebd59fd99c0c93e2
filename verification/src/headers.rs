//! The header block: header lines, and what the headers say about the body,
//! its media type and the cookies.

use crate::fields::{add_parts, with_parts, Rule};
use crate::maps::{recorded, texts, HeaderMap, StrMap};
use crate::number::{number_of, parse_number};
use crate::text::{
    after, before, chars_of, contains, has_substring, lemma_first_segment, lowercase, lowered,
    occurs, segments, split, split_first, string_of, trim, trimmed, views,
};
use vstd::prelude::*;

verus! {

/// A header mapping: lowercased name to the values sent under it, in order.
pub type Headers = Map<Seq<char>, Seq<Seq<char>>>;

/// Name and value of a header line: the line is cut at its first `:`; the
/// name is trimmed and lowercased, the value is trimmed.  A line without a
/// `:` is no header.
pub open spec fn header_of(line: Seq<char>) -> Option<(Seq<char>, Seq<char>)> {
    if occurs(line, ':') {
        Some((name_of(line), value_of(line)))
    } else {
        None
    }
}

/// The headers after one more header line: its value is recorded after the
/// values that its name already has; a line without a `:` changes nothing.
pub open spec fn with_line(headers: Headers, line: Seq<char>) -> Headers {
    match header_of(line) {
        Some((name, value)) => headers.insert(name, recorded(headers, name).push(value)),
        None => headers,
    }
}

/// The shape of the headers of a request that was read: every name is in
/// lowercase, and every name has at least one value.
pub open spec fn normal(headers: Headers) -> bool {
    forall|name: Seq<char>| #[trigger]
        headers.contains_key(name) ==> headers[name].len() > 0 && exists|s: Seq<char>|
            name == lowered(s)
}

/// The first value sent under `name`.
pub open spec fn first_value(headers: Headers, name: Seq<char>) -> Option<Seq<char>> {
    if headers.contains_key(name) && headers[name].len() > 0 {
        Some(headers[name][0])
    } else {
        None
    }
}

/// Whether the body is sent in chunks: the first `transfer-encoding` value,
/// lowercased, contains `chunked`.
pub open spec fn chunked(headers: Headers) -> bool {
    match first_value(headers, "transfer-encoding"@) {
        Some(v) => has_substring(lowered(v), "chunked"@),
        None => false,
    }
}

/// The body length that the headers declare: the first `content-length`
/// value, trimmed, read as a decimal number that fits a `usize`.
pub open spec fn declared_length(headers: Headers) -> Option<nat> {
    match first_value(headers, "content-length"@) {
        Some(v) => number_of(trimmed(v), 10, usize::MAX as nat),
        None => None,
    }
}

/// The media type: the first `content-type` value up to its first `;`,
/// trimmed and lowercased.
pub open spec fn media_type(headers: Headers) -> Option<Seq<char>> {
    match first_value(headers, "content-type"@) {
        Some(v) => Some(lowered(trimmed(before(v, ';')))),
        None => None,
    }
}

/// The parameters of the media type: the `;`-separated parts of the first
/// `content-type` value after the first part.
pub open spec fn media_params(headers: Headers) -> Map<Seq<char>, Seq<char>> {
    match first_value(headers, "content-type"@) {
        Some(v) => with_parts(Rule::Param, Map::empty(), segments(v, ';').skip(1)),
        None => Map::empty(),
    }
}

/// `m` after the cookies of the given `cookie` values were read, value by
/// value and within each value from left to right.
pub open spec fn with_cookies(m: Map<Seq<char>, Seq<char>>, values: Seq<Seq<char>>) -> Map<
    Seq<char>,
    Seq<char>,
>
    decreases values.len(),
{
    if values.len() == 0 {
        m
    } else {
        with_parts(
            Rule::Cookie,
            with_cookies(m, values.drop_last()),
            segments(values.last(), ';'),
        )
    }
}

/// The cookies: those of all `cookie` values, a later one replacing an
/// earlier one of the same name.
pub open spec fn cookie_jar(headers: Headers) -> Map<Seq<char>, Seq<char>> {
    with_cookies(Map::empty(), recorded(headers, "cookie"@))
}

/// The text of an optional string.
pub open spec fn text_of(s: Option<String>) -> Option<Seq<char>> {
    match s {
        Some(s) => Some(s@),
        None => None,
    }
}

/// The text of an optional borrowed string.
pub open spec fn text_at(s: Option<&String>) -> Option<Seq<char>> {
    match s {
        Some(s) => Some(s@),
        None => None,
    }
}

/// The name of a header line.
pub open spec fn name_of(line: Seq<char>) -> Seq<char> {
    lowered(trimmed(before(line, ':')))
}

/// The value of a header line.
pub open spec fn value_of(line: Seq<char>) -> Seq<char> {
    trimmed(after(line, ':'))
}

/// A header sent twice keeps both values, in arrival order, under one name.
pub proof fn lemma_repeated_header(headers: Headers, first: Seq<char>, second: Seq<char>)
    requires
        occurs(first, ':'),
        occurs(second, ':'),
        name_of(first) == name_of(second),
    ensures
        with_line(with_line(headers, first), second)[name_of(first)] == recorded(
            headers,
            name_of(first),
        ).push(value_of(first)).push(value_of(second)),
{
}

/// A header line keeps the headers in shape.
pub proof fn lemma_with_line_normal(headers: Headers, line: Seq<char>)
    requires
        normal(headers),
    ensures
        normal(with_line(headers, line)),
{
    let after = with_line(headers, line);
    assert forall|name: Seq<char>| #[trigger] after.contains_key(name) implies after[name].len() > 0
        && exists|s: Seq<char>| name == lowered(s) by {
        if occurs(line, ':') && name == name_of(line) {
            assert(name == lowered(trimmed(before(line, ':'))));
        } else {
            assert(headers.contains_key(name));
        }
    }
}

/// The cookies of two `cookie` headers are those of the first, overwritten
/// by those of the second.
pub proof fn lemma_cookies_of_two_headers(headers: Headers, first: Seq<char>, second: Seq<char>)
    requires
        recorded(headers, "cookie"@) == seq![first, second],
    ensures
        cookie_jar(headers) == with_parts(
            Rule::Cookie,
            with_parts(Rule::Cookie, Map::empty(), segments(first, ';')),
            segments(second, ';'),
        ),
{
    let both = seq![first, second];
    assert(both.drop_last() =~= seq![first]);
    assert(seq![first].drop_last() =~= Seq::<Seq<char>>::empty());
    reveal_with_fuel(with_cookies, 3);
}

/// Reads one header line into `headers`.
pub fn add_line(headers: &mut HeaderMap, line: &[char])
    ensures
        final(headers)@ == with_line(old(headers)@, line@),
        old(headers).wf() ==> final(headers).wf(),
{
    let (name, value) = split_first(line, ':');
    match value {
        Some(value) => {
            let name = lowercase(string_of(trim(name)).as_str());
            headers.append(name, string_of(trim(value)));
        },
        None => {},
    }
}

/// The first value recorded under exactly `name`.
pub fn first<'a>(headers: &'a HeaderMap, name: &str) -> (r: Option<&'a String>)
    ensures
        text_at(r) == first_value(headers@, name@),
{
    match headers.get(name) {
        Some(values) => {
            assert(texts(values@).len() == values@.len());
            if values.len() > 0 {
                assert(texts(values@)[0] == values@[0]@);
                Some(&values[0])
            } else {
                None
            }
        },
        None => None,
    }
}

/// Tells whether the headers announce a body sent in chunks.
pub fn is_chunked(headers: &HeaderMap) -> (b: bool)
    ensures
        b == chunked(headers@),
{
    match first(headers, "transfer-encoding") {
        Some(v) => {
            let lower = lowercase(v.as_str());
            let text = chars_of(lower.as_str());
            let word = chars_of("chunked");
            contains(text.as_slice(), word.as_slice())
        },
        None => false,
    }
}

/// The body length that the headers declare.
pub fn content_length(headers: &HeaderMap) -> (r: Option<usize>)
    ensures
        match r {
            Some(n) => declared_length(headers@) == Some(n as nat),
            None => declared_length(headers@) is None,
        },
{
    match first(headers, "content-length") {
        Some(v) => {
            let text = chars_of(v.as_str());
            parse_number(trim(text.as_slice()), 10, usize::MAX)
        },
        None => None,
    }
}

/// The media type of the body.
pub fn content_type(headers: &HeaderMap) -> (r: Option<String>)
    ensures
        text_of(r) == media_type(headers@),
{
    match first(headers, "content-type") {
        Some(v) => {
            let text = chars_of(v.as_str());
            let (head, _) = split_first(text.as_slice(), ';');
            Some(lowercase(string_of(trim(head)).as_str()))
        },
        None => None,
    }
}

/// The parameters of the media type.
pub fn content_type_params(headers: &HeaderMap) -> (r: StrMap)
    ensures
        r@ == media_params(headers@),
        r.wf(),
{
    let mut params = StrMap::new();
    match first(headers, "content-type") {
        Some(v) => {
            let text = chars_of(v.as_str());
            let parts = split(text.as_slice(), ';');
            proof {
                lemma_first_segment(text@, ';');
            }
            add_parts(Rule::Param, &mut params, &parts, 1);
        },
        None => {},
    }
    params
}

/// The cookies that the headers carry.
pub fn cookies(headers: &HeaderMap) -> (r: StrMap)
    ensures
        r@ == cookie_jar(headers@),
        r.wf(),
{
    let mut jar = StrMap::new();
    match headers.get("cookie") {
        Some(values) => {
            let ghost all = texts(values@);
            let mut i: usize = 0;
            assert(all.take(0) =~= Seq::<Seq<char>>::empty());
            while i < values.len()
                invariant
                    i <= values@.len(),
                    all == texts(values@),
                    jar@ == with_cookies(Map::empty(), all.take(i as int)),
                    jar.wf(),
                decreases values.len() - i,
            {
                proof {
                    assert(all.take(i + 1).drop_last() =~= all.take(i as int));
                    assert(all.take(i + 1).last() == values@[i as int]@);
                }
                let text = chars_of(values[i].as_str());
                let parts = split(text.as_slice(), ';');
                assert(views(parts@).skip(0) =~= views(parts@));
                add_parts(Rule::Cookie, &mut jar, &parts, 0);
                i += 1;
            }
            assert(all.take(values@.len() as int) =~= all);
        },
        None => {},
    }
    jar
}

} // verus!
