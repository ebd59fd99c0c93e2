//! Key and value fields in `&`- and `;`-separated text: query strings and form
//! bodies, media-type parameters, cookies.

use crate::maps::StrMap;
use crate::text::{
    after, before, lowercase, lowered, occurs, segments, split, split_first, string_of, strip,
    trim, trimmed, unquoted, views, CharClass,
};
use vstd::prelude::*;

verus! {

/// How one part of a separated text is read as a key and a value.
#[derive(Clone, Copy)]
pub enum Rule {
    /// A pair of a query string or a form body.  A part with a `%` is cut at
    /// its first `%`; otherwise a part with a `=` is cut at its first `=`;
    /// otherwise a part that is not empty is a key with an empty value.
    /// Nothing is percent-decoded.
    Pair,
    /// A parameter of a media type.  A part with a `=` is cut at its first
    /// `=`; the key is trimmed and lowercased, the value is trimmed and its
    /// surrounding double quotes are dropped.
    Param,
    /// A cookie.  The part is trimmed; if it has a `=` it is cut at its first
    /// `=`, and name and value are trimmed.
    Cookie,
}

/// The entry that `part` contributes under `rule`, if it contributes one.
pub open spec fn entry_of(rule: Rule, part: Seq<char>) -> Option<(Seq<char>, Seq<char>)> {
    match rule {
        Rule::Pair => if occurs(part, '%') {
            Some((before(part, '%'), after(part, '%')))
        } else if occurs(part, '=') {
            Some((before(part, '='), after(part, '=')))
        } else if part.len() > 0 {
            Some((part, Seq::empty()))
        } else {
            None
        },
        Rule::Param => if occurs(part, '=') {
            Some((lowered(trimmed(before(part, '='))), unquoted(trimmed(after(part, '=')))))
        } else {
            None
        },
        Rule::Cookie => if occurs(trimmed(part), '=') {
            Some((trimmed(before(trimmed(part), '=')), trimmed(after(trimmed(part), '='))))
        } else {
            None
        },
    }
}

/// `m` after `part` was read under `rule`: its entry is written over `m`.
pub open spec fn with_part(rule: Rule, m: Map<Seq<char>, Seq<char>>, part: Seq<char>) -> Map<
    Seq<char>,
    Seq<char>,
> {
    match entry_of(rule, part) {
        Some((key, value)) => m.insert(key, value),
        None => m,
    }
}

/// `m` after all of `parts` were read under `rule`, first to last; a later
/// entry replaces an earlier one with the same key.
pub open spec fn with_parts(
    rule: Rule,
    m: Map<Seq<char>, Seq<char>>,
    parts: Seq<Seq<char>>,
) -> Map<Seq<char>, Seq<char>>
    decreases parts.len(),
{
    if parts.len() == 0 {
        m
    } else {
        with_part(rule, with_parts(rule, m, parts.drop_last()), parts.last())
    }
}

/// The mapping that a query string or a form body denotes.
pub open spec fn query_of(s: Seq<char>) -> Map<Seq<char>, Seq<char>> {
    with_parts(Rule::Pair, Map::empty(), segments(s, '&'))
}

/// The path of a request target: what stands before its first `?`.
pub open spec fn target_path(target: Seq<char>) -> Seq<char> {
    before(target, '?')
}

/// The query mapping of a request target: that of what follows its first
/// `?`; empty when it has no `?`.
pub open spec fn target_query(target: Seq<char>) -> Map<Seq<char>, Seq<char>> {
    if occurs(target, '?') {
        query_of(after(target, '?'))
    } else {
        Map::empty()
    }
}

/// The key that `part` contributes under `rule`.
pub open spec fn key_of(rule: Rule, part: Seq<char>) -> Seq<char> {
    match entry_of(rule, part) {
        Some((key, _)) => key,
        None => Seq::empty(),
    }
}

/// The value that `part` contributes under `rule`.
pub open spec fn value_of(rule: Rule, part: Seq<char>) -> Seq<char> {
    match entry_of(rule, part) {
        Some((_, value)) => value,
        None => Seq::empty(),
    }
}

/// In a list of parts, the last part with a given key decides the value of
/// that key.
pub proof fn lemma_last_write_wins(
    rule: Rule,
    m: Map<Seq<char>, Seq<char>>,
    parts: Seq<Seq<char>>,
    i: int,
)
    requires
        0 <= i < parts.len(),
        entry_of(rule, parts[i]) is Some,
        forall|j: int|
            i < j < parts.len() && (#[trigger] entry_of(rule, parts[j])) is Some ==> key_of(
                rule,
                parts[j],
            ) != key_of(rule, parts[i]),
    ensures
        with_parts(rule, m, parts).contains_key(key_of(rule, parts[i])),
        with_parts(rule, m, parts)[key_of(rule, parts[i])] == value_of(rule, parts[i]),
    decreases parts.len(),
{
    if i < parts.len() - 1 {
        let shorter = parts.drop_last();
        assert(shorter[i] == parts[i]);
        assert forall|j: int|
            i < j < shorter.len() && (#[trigger] entry_of(rule, shorter[j])) is Some implies key_of(
            rule,
            shorter[j],
        ) != key_of(rule, shorter[i]) by {
            assert(shorter[j] == parts[j]);
        }
        lemma_last_write_wins(rule, m, shorter, i);
        assert(parts.last() == parts[parts.len() - 1]);
    }
}

/// Reads `part` under `rule`.
pub fn read_entry(rule: Rule, part: &[char]) -> (r: Option<(String, String)>)
    ensures
        match r {
            Some(e) => entry_of(rule, part@) == Some((e.0@, e.1@)),
            None => entry_of(rule, part@) is None,
        },
{
    match rule {
        Rule::Pair => {
            let (key, value) = split_first(part, '%');
            if let Some(value) = value {
                return Some((string_of(key), string_of(value)));
            }
            let (key, value) = split_first(part, '=');
            if let Some(value) = value {
                return Some((string_of(key), string_of(value)));
            }
            if part.len() > 0 {
                Some((string_of(part), String::new()))
            } else {
                None
            }
        },
        Rule::Param => {
            let (key, value) = split_first(part, '=');
            match value {
                Some(value) => {
                    let key = lowercase(string_of(trim(key)).as_str());
                    let value = string_of(strip(trim(value), CharClass::Only('"')));
                    Some((key, value))
                },
                None => None,
            }
        },
        Rule::Cookie => {
            let (name, value) = split_first(trim(part), '=');
            match value {
                Some(value) => Some((string_of(trim(name)), string_of(trim(value)))),
                None => None,
            }
        },
    }
}

/// Reads `parts`, from position `from` on, under `rule` into `map`.
pub fn add_parts(rule: Rule, map: &mut StrMap, parts: &Vec<&[char]>, from: usize)
    requires
        from <= parts@.len(),
    ensures
        final(map)@ == with_parts(rule, old(map)@, views(parts@).skip(from as int)),
        old(map).wf() ==> final(map).wf(),
{
    let ghost all = views(parts@).skip(from as int);
    let mut i: usize = from;
    assert(all.take(0) =~= Seq::<Seq<char>>::empty());
    while i < parts.len()
        invariant
            from <= i <= parts@.len(),
            all == views(parts@).skip(from as int),
            map@ == with_parts(rule, old(map)@, all.take(i - from)),
            old(map).wf() ==> map.wf(),
        decreases parts.len() - i,
    {
        proof {
            assert(all.take(i + 1 - from).drop_last() =~= all.take(i - from));
            assert(all.take(i + 1 - from).last() == parts@[i as int]@);
        }
        match read_entry(rule, parts[i]) {
            Some((key, value)) => {
                map.insert(key, value);
            },
            None => {},
        }
        i += 1;
    }
    assert(all.take(parts@.len() - from) =~= all);
}

/// Decodes a query string or a form body.
pub fn decode_pairs(s: &[char]) -> (r: StrMap)
    ensures
        r@ == query_of(s@),
        r.wf(),
{
    let parts = split(s, '&');
    let mut map = StrMap::new();
    assert(views(parts@).skip(0) =~= views(parts@));
    add_parts(Rule::Pair, &mut map, &parts, 0);
    map
}

/// Splits a request target into its path and its query mapping.
pub fn split_target(target: &[char]) -> (r: (String, StrMap))
    ensures
        r.0@ == target_path(target@),
        r.1@ == target_query(target@),
        r.1.wf(),
{
    let (path, query) = split_first(target, '?');
    match query {
        Some(query) => (string_of(path), decode_pairs(query)),
        None => (string_of(path), StrMap::new()),
    }
}

} // verus!
