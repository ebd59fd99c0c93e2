//! A parsed request and the read-only views over it.

use crate::fields::{decode_pairs, query_of, split_target, target_path, target_query};
use crate::headers::{
    chunked, content_length, content_type, content_type_params, cookie_jar, cookies,
    declared_length, first, first_value, is_chunked, media_params, media_type, text_at, text_of,
    Headers,
};
use crate::json::{field, json_of, member_of, parse};
use crate::maps::{texts, HeaderMap, StrMap};
use crate::text::{chars_of, lowercase, lowered, str_eq};
use crate::version::{version_text, HttpVersion};
use vstd::prelude::*;

verus! {

/// What a request holds.
pub struct RequestView {
    /// The method, as sent.
    pub method: Seq<char>,
    /// The path of the request target, not decoded.
    pub path: Seq<char>,
    /// The query parameters.
    pub query: Map<Seq<char>, Seq<char>>,
    /// The protocol version.
    pub version: HttpVersion,
    /// The headers, by lowercased name.
    pub headers: Headers,
    /// The body, as text.
    pub body: Seq<char>,
}

/// One parsed request.  It does not change once it is built.
pub struct Cerial {
    method: String,
    path: String,
    query: StrMap,
    version: HttpVersion,
    headers: HeaderMap,
    body: String,
}

impl View for Cerial {
    type V = RequestView;

    closed spec fn view(&self) -> RequestView {
        RequestView {
            method: self.method@,
            path: self.path@,
            query: self.query@,
            version: self.version,
            headers: self.headers@,
            body: self.body@,
        }
    }
}

/// Whether the body is a form: the media type is exactly
/// `application/x-www-form-urlencoded`.
pub open spec fn form_body(r: RequestView) -> bool {
    media_type(r.headers) == Some("application/x-www-form-urlencoded"@)
}

/// Whether the body is JSON: the media type is exactly `application/json`.
pub open spec fn json_body(r: RequestView) -> bool {
    media_type(r.headers) == Some("application/json"@)
}

/// The form fields: those of the body when the body is a form, else none.
pub open spec fn form_fields(r: RequestView) -> Map<Seq<char>, Seq<char>> {
    if form_body(r) {
        query_of(r.body)
    } else {
        Map::empty()
    }
}

/// The JSON value of the body: what the body denotes when the body is JSON
/// and denotes a value, else nothing.
pub open spec fn json_value(r: RequestView) -> Option<serde_json::Value> {
    if json_body(r) {
        json_of(r.body)
    } else {
        None
    }
}

/// The value under `key` in `m`, if `m` has that key.
pub open spec fn lookup(m: Map<Seq<char>, Seq<char>>, key: Seq<char>) -> Option<Seq<char>> {
    if m.contains_key(key) {
        Some(m[key])
    } else {
        None
    }
}

/// Header names are matched without regard to case: two names with the same
/// lowercase form find the same values.
pub proof fn lemma_header_names_ignore_case(r: RequestView, a: Seq<char>, b: Seq<char>)
    requires
        lowered(a) == lowered(b),
    ensures
        lookup_header(r, a) == lookup_header(r, b),
        first_value(r.headers, lowered(a)) == first_value(r.headers, lowered(b)),
{
}

/// The values of the header `name`, whatever the case of `name`.
pub open spec fn lookup_header(r: RequestView, name: Seq<char>) -> Option<Seq<Seq<char>>> {
    if r.headers.contains_key(lowered(name)) {
        Some(r.headers[lowered(name)])
    } else {
        None
    }
}

/// A body that is no form has no form field, and a body that is not JSON
/// has no JSON value, whatever the body holds.
pub proof fn lemma_views_need_their_media_type(r: RequestView, name: Seq<char>)
    ensures
        !form_body(r) ==> lookup(form_fields(r), name) is None,
        form_body(r) ==> lookup(form_fields(r), name) == lookup(query_of(r.body), name),
        !json_body(r) ==> json_value(r) is None,
        json_body(r) ==> json_value(r) == json_of(r.body),
{
}

impl Cerial {
    #[verifier::type_invariant]
    spec fn maps_wf(&self) -> bool {
        self.query.wf() && self.headers.wf()
    }

    /// The request with the given parts.  Header names are expected in
    /// lowercase: lookups lowercase the name they are given.
    pub fn from_parts(
        method: String,
        path: String,
        query: StrMap,
        version: HttpVersion,
        headers: HeaderMap,
        body: String,
    ) -> (r: Self)
        requires
            query.wf(),
            headers.wf(),
        ensures
            r@ == (RequestView {
                method: method@,
                path: path@,
                query: query@,
                version: version,
                headers: headers@,
                body: body@,
            }),
    {
        Cerial { method, path, query, version, headers, body }
    }

    /// The method.
    pub fn get_method(&self) -> (r: &str)
        ensures
            r@ == self@.method,
    {
        self.method.as_str()
    }

    /// The path of the request target.
    pub fn get_path(&self) -> (r: &str)
        ensures
            r@ == self@.path,
    {
        self.path.as_str()
    }

    /// The query parameters.
    pub fn get_query(&self) -> (r: &StrMap)
        ensures
            r@ == self@.query,
            r.wf(),
    {
        proof {
            use_type_invariant(self);
        }
        &self.query
    }

    /// The query parameter `key`.
    pub fn get_query_param(&self, key: &str) -> (r: Option<&String>)
        ensures
            text_at(r) == lookup(self@.query, key@),
    {
        self.query.get(key)
    }

    /// The protocol version.
    pub fn get_version(&self) -> (r: &HttpVersion)
        ensures
            *r == self@.version,
    {
        &self.version
    }

    /// The protocol version in canonical text.
    pub fn get_version_string(&self) -> (r: String)
        ensures
            r@ == version_text(self@.version),
    {
        self.version.to_string()
    }

    /// The headers.
    pub fn get_headers(&self) -> (r: &HeaderMap)
        ensures
            r@ == self@.headers,
            r.wf(),
    {
        proof {
            use_type_invariant(self);
        }
        &self.headers
    }

    /// All values of the header `name`, in arrival order; the case of `name`
    /// does not matter.
    pub fn get_header(&self, name: &str) -> (r: Option<&Vec<String>>)
        ensures
            match r {
                Some(values) => lookup_header(self@, name@) == Some(texts(values@)),
                None => lookup_header(self@, name@) is None,
            },
    {
        let lower = lowercase(name);
        self.headers.get(lower.as_str())
    }

    /// The first value of the header `name`; the case of `name` does not matter.
    pub fn get_header_value(&self, name: &str) -> (r: Option<&String>)
        ensures
            text_at(r) == first_value(self@.headers, lowered(name@)),
    {
        let lower = lowercase(name);
        first(&self.headers, lower.as_str())
    }

    /// The body.
    pub fn get_body(&self) -> (r: &str)
        ensures
            r@ == self@.body,
    {
        self.body.as_str()
    }

    /// Splits a request target into its path and its query parameters.
    pub fn parse_path_and_query(path_and_query: &str) -> (r: (String, StrMap))
        ensures
            r.0@ == target_path(path_and_query@),
            r.1@ == target_query(path_and_query@),
            r.1.wf(),
    {
        let target = chars_of(path_and_query);
        split_target(target.as_slice())
    }

    /// Decodes a query string or a form body.
    pub fn parse_query_string(query: &str) -> (r: StrMap)
        ensures
            r@ == query_of(query@),
            r.wf(),
    {
        let text = chars_of(query);
        decode_pairs(text.as_slice())
    }

    /// The body length that `headers` declare.
    pub fn extract_content_length_from_map(headers: &HeaderMap) -> (r: Option<usize>)
        ensures
            match r {
                Some(n) => declared_length(headers@) == Some(n as nat),
                None => declared_length(headers@) is None,
            },
    {
        content_length(headers)
    }

    /// Whether `headers` announce a body sent in chunks.
    pub fn is_chunked_headers(headers: &HeaderMap) -> (b: bool)
        ensures
            b == chunked(headers@),
    {
        is_chunked(headers)
    }

    /// The media type of the body, without its parameters.
    pub fn get_content_type(&self) -> (r: Option<String>)
        ensures
            text_of(r) == media_type(self@.headers),
    {
        content_type(&self.headers)
    }

    /// The parameters of the media type.
    pub fn get_content_type_params(&self) -> (r: StrMap)
        ensures
            r@ == media_params(self@.headers),
            r.wf(),
    {
        content_type_params(&self.headers)
    }

    /// The `charset` parameter of the media type.
    pub fn get_charset(&self) -> (r: Option<String>)
        ensures
            text_of(r) == lookup(media_params(self@.headers), "charset"@),
    {
        let params = content_type_params(&self.headers);
        match params.get("charset") {
            Some(v) => Some(v.clone()),
            None => None,
        }
    }

    /// The cookies.
    pub fn get_cookies(&self) -> (r: StrMap)
        ensures
            r@ == cookie_jar(self@.headers),
            r.wf(),
    {
        cookies(&self.headers)
    }

    /// The cookie `name`.
    pub fn get_cookie(&self, name: &str) -> (r: Option<String>)
        ensures
            text_of(r) == lookup(cookie_jar(self@.headers), name@),
    {
        let jar = cookies(&self.headers);
        match jar.get(name) {
            Some(v) => Some(v.clone()),
            None => None,
        }
    }

    /// Whether the body is a form.
    pub fn is_form_data(&self) -> (b: bool)
        ensures
            b == form_body(self@),
    {
        match content_type(&self.headers) {
            Some(t) => str_eq(t.as_str(), "application/x-www-form-urlencoded"),
            None => false,
        }
    }

    /// The form fields of the body; none when the body is no form.
    pub fn get_form_data(&self) -> (r: StrMap)
        ensures
            r@ == form_fields(self@),
            r.wf(),
    {
        if self.is_form_data() {
            let text = chars_of(self.body.as_str());
            decode_pairs(text.as_slice())
        } else {
            StrMap::new()
        }
    }

    /// The form field `field_name`.
    pub fn get_form_field(&self, field_name: &str) -> (r: Option<String>)
        ensures
            text_of(r) == lookup(form_fields(self@), field_name@),
    {
        let form = self.get_form_data();
        match form.get(field_name) {
            Some(v) => Some(v.clone()),
            None => None,
        }
    }

    /// Whether the body is JSON.
    pub fn is_json(&self) -> (b: bool)
        ensures
            b == json_body(self@),
    {
        match content_type(&self.headers) {
            Some(t) => str_eq(t.as_str(), "application/json"),
            None => false,
        }
    }

    /// The body as a JSON value; nothing when the body is not JSON or does
    /// not parse.
    pub fn get_json(&self) -> (r: Option<serde_json::Value>)
        ensures
            r == json_value(self@),
    {
        if self.is_json() {
            parse(self.body.as_str())
        } else {
            None
        }
    }

    /// The member `field` of the body's JSON object.
    pub fn get_json_field(&self, field: &str) -> (r: Option<serde_json::Value>)
        ensures
            r == match json_value(self@) {
                Some(value) => member_of(value, field@),
                None => None,
            },
    {
        crate::json::field(self.get_json(), field)
    }

    /// Whether the body was announced as sent in chunks.
    pub fn is_chunked(&self) -> (b: bool)
        ensures
            b == chunked(self@.headers),
    {
        is_chunked(&self.headers)
    }
}

} // verus!
