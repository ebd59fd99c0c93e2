//! The protocol version of a request: `HTTP/<major>.<minor>`.

use crate::number::{
    decimal_text, digit_of, lemma_decimal_text, lemma_number_of_decimal_text, number_of,
    parse_number, push_decimal,
};
use crate::text::{
    chars_of, find, find_last, first_index, is_blank, is_word, last_index, lemma_first_in_is,
    lemma_last_in_is, slice, string_of, CharClass,
};
use vstd::prelude::*;

verus! {

/// A protocol version.
#[derive(Debug, Clone, Copy, PartialEq, Eq, Structural)]
pub struct HttpVersion {
    pub major: u8,
    pub minor: u8,
}

/// The version that a token denotes.
///
/// The token is cut after its last `/`; what follows must be two numbers of
/// at most 255 with one `.` between them.  What stands before the `/` is not
/// looked at.
pub open spec fn version_of(token: Seq<char>) -> Option<HttpVersion> {
    let slash = last_index(token, '/');
    let numbers = token.skip(slash + 1);
    let dot = first_index(numbers, '.');
    if slash < 0 || dot >= numbers.len() {
        None
    } else {
        match (number_of(numbers.take(dot), 10, 255), number_of(numbers.skip(dot + 1), 10, 255)) {
            (Some(major), Some(minor)) => Some(HttpVersion { major: major as u8, minor: minor as u8 }),
            _ => None,
        }
    }
}

/// The canonical text of a version: `HTTP/`, the major number, a dot, the
/// minor number, both in decimal without leading zeros.
pub open spec fn version_text(v: HttpVersion) -> Seq<char> {
    seq!['H', 'T', 'T', 'P', '/'] + decimal_text(v.major as nat) + seq!['.'] + decimal_text(
        v.minor as nat,
    )
}

/// The version assumed when a request names none that can be read.
pub open spec fn default_version() -> HttpVersion {
    HttpVersion { major: 1, minor: 1 }
}

/// Reading the canonical text of a version gives that version back; so a
/// token in canonical form is rendered again exactly as it was read.
pub proof fn lemma_version_round_trip(v: HttpVersion)
    ensures
        version_of(version_text(v)) == Some(v),
{
    let major = decimal_text(v.major as nat);
    let minor = decimal_text(v.minor as nat);
    let text = version_text(v);
    lemma_decimal_text(v.major as nat);
    lemma_decimal_text(v.minor as nat);
    lemma_number_of_decimal_text(v.major as nat, 255);
    lemma_number_of_decimal_text(v.minor as nat, 255);
    assert(text[4] == '/');
    assert forall|k: int| 4 < k < text.len() implies !CharClass::Only('/').has(text[k]) by {
        if k < 5 + major.len() {
            assert(text[k] == major[k - 5]);
            assert(digit_of(major[k - 5], 10) is Some);
        } else if k == 5 + major.len() {
            assert(text[k] == '.');
        } else {
            assert(text[k] == minor[k - 6 - major.len()]);
            assert(digit_of(minor[k - 6 - major.len()], 10) is Some);
        }
    }
    lemma_last_in_is(text, CharClass::Only('/'), 4);
    let numbers = text.skip(5);
    assert(numbers =~= major + seq!['.'] + minor);
    let dot = major.len() as int;
    assert(numbers[dot] == '.');
    assert forall|k: int| 0 <= k < dot implies !CharClass::Only('.').has(numbers[k]) by {
        assert(numbers[k] == major[k]);
        assert(digit_of(major[k], 10) is Some);
    }
    lemma_first_in_is(numbers, CharClass::Only('.'), dot);
    assert(numbers.take(dot) =~= major);
    assert(numbers.skip(dot + 1) =~= minor);
}

/// The canonical text of a version is one word.
pub proof fn lemma_version_text_is_word(v: HttpVersion)
    ensures
        is_word(version_text(v)),
{
    let major = decimal_text(v.major as nat);
    let minor = decimal_text(v.minor as nat);
    let text = version_text(v);
    lemma_decimal_text(v.major as nat);
    lemma_decimal_text(v.minor as nat);
    assert forall|k: int| 0 <= k < text.len() implies !is_blank(#[trigger] text[k]) by {
        if k < 5 {
        } else if k < 5 + major.len() {
            assert(text[k] == major[k - 5]);
            assert(digit_of(major[k - 5], 10) is Some);
        } else if k == 5 + major.len() {
            assert(text[k] == '.');
        } else {
            assert(text[k] == minor[k - 6 - major.len()]);
            assert(digit_of(minor[k - 6 - major.len()], 10) is Some);
        }
    }
}

impl HttpVersion {
    /// The version `major.minor`.
    pub fn new(major: u8, minor: u8) -> (v: Self)
        ensures
            v.major == major,
            v.minor == minor,
    {
        Self { major, minor }
    }

    /// Reads a version token such as `HTTP/1.1`; `None` when the token has no
    /// `/`, no `.` after its last `/`, or a part that is not a number of at
    /// most 255.
    pub fn from_string(version_str: &str) -> (r: Option<Self>)
        ensures
            r == version_of(version_str@),
    {
        let token = chars_of(version_str);
        Self::from_chars(token.as_slice())
    }

    /// Reads a version token given as characters.
    pub fn from_chars(token: &[char]) -> (r: Option<Self>)
        ensures
            r == version_of(token@),
    {
        let slash = match find_last(token, '/') {
            Some(i) => i,
            None => {
                return None;
            },
        };
        let end = token.len();
        let numbers = slice(token, slash + 1, end);
        let dot = find(numbers, '.');
        if dot >= numbers.len() {
            return None;
        }
        let major = parse_number(slice(numbers, 0, dot), 10, 255);
        let minor = parse_number(slice(numbers, dot + 1, numbers.len()), 10, 255);
        match (major, minor) {
            (Some(major), Some(minor)) => Some(HttpVersion { major: major as u8, minor: minor as u8 }),
            _ => None,
        }
    }

    /// The canonical text of the version, `HTTP/<major>.<minor>`.
    pub fn to_string(&self) -> (r: String)
        ensures
            r@ == version_text(*self),
    {
        let mut out: Vec<char> = Vec::new();
        out.push('H');
        out.push('T');
        out.push('T');
        out.push('P');
        out.push('/');
        push_decimal(&mut out, self.major as usize);
        out.push('.');
        push_decimal(&mut out, self.minor as usize);
        assert(out@ =~= version_text(*self));
        string_of(out.as_slice())
    }
}

} // verus!
