//! Text as sequences of characters: searching, trimming and comparing.
//!
//! Every executable function here works on a slice of `char` (or on `str`) and
//! is described by a function on `Seq<char>` of the same meaning.

use vstd::prelude::*;
use vstd::slice::slice_subrange;
use vstd::utf8::{decode_utf8, encode_utf8, encode_utf8_decode_utf8};

verus! {

/// A set of characters to search for or to strip.
#[derive(Clone, Copy)]
pub enum CharClass {
    /// The code points with the Unicode property `White_Space`.
    Blank,
    /// One given character.
    Only(char),
}

/// The characters that trimming and word splitting treat as blank.
pub open spec fn is_blank(c: char) -> bool {
    let u = c as u32;
    ||| 0x09 <= u <= 0x0D
    ||| u == 0x20
    ||| u == 0x85
    ||| u == 0xA0
    ||| u == 0x1680
    ||| 0x2000 <= u <= 0x200A
    ||| u == 0x2028
    ||| u == 0x2029
    ||| u == 0x202F
    ||| u == 0x205F
    ||| u == 0x3000
}

impl CharClass {
    /// Membership of `c` in the class.
    pub open spec fn has(self, c: char) -> bool {
        match self {
            CharClass::Blank => is_blank(c),
            CharClass::Only(d) => c == d,
        }
    }

    /// Tells whether `c` belongs to the class.
    pub fn contains(self, c: char) -> (b: bool)
        ensures
            b == self.has(c),
    {
        match self {
            CharClass::Blank => {
                let u: u32 = c as u32;
                (0x09 <= u && u <= 0x0D) || u == 0x20 || u == 0x85 || u == 0xA0 || u == 0x1680 || (
                0x2000 <= u && u <= 0x200A) || u == 0x2028 || u == 0x2029 || u == 0x202F || u
                    == 0x205F || u == 0x3000
            },
            CharClass::Only(d) => c == d,
        }
    }
}

/// Index of the first character of `s` in `class`; `s.len()` when there is none.
pub open spec fn first_in(s: Seq<char>, class: CharClass) -> int
    decreases s.len(),
{
    if s.len() == 0 {
        0
    } else if class.has(s[0]) {
        0
    } else {
        1 + first_in(s.drop_first(), class)
    }
}

/// Index of the last character of `s` in `class`; `-1` when there is none.
pub open spec fn last_in(s: Seq<char>, class: CharClass) -> int
    decreases s.len(),
{
    if s.len() == 0 {
        -1
    } else if class.has(s.last()) {
        s.len() - 1
    } else {
        last_in(s.drop_last(), class)
    }
}

/// `s` without its leading characters in `class`.
pub open spec fn stripped_start(s: Seq<char>, class: CharClass) -> Seq<char>
    decreases s.len(),
{
    if s.len() > 0 && class.has(s[0]) {
        stripped_start(s.drop_first(), class)
    } else {
        s
    }
}

/// `s` without its trailing characters in `class`.
pub open spec fn stripped_end(s: Seq<char>, class: CharClass) -> Seq<char>
    decreases s.len(),
{
    if s.len() > 0 && class.has(s.last()) {
        stripped_end(s.drop_last(), class)
    } else {
        s
    }
}

/// `s` without leading and trailing characters in `class`.
pub open spec fn stripped(s: Seq<char>, class: CharClass) -> Seq<char> {
    stripped_end(stripped_start(s, class), class)
}

/// Index of the first occurrence of `c` in `s`; `s.len()` when `c` does not occur.
pub open spec fn first_index(s: Seq<char>, c: char) -> int {
    first_in(s, CharClass::Only(c))
}

/// Index of the last occurrence of `c` in `s`; `-1` when `c` does not occur.
pub open spec fn last_index(s: Seq<char>, c: char) -> int {
    last_in(s, CharClass::Only(c))
}

/// Whether `c` occurs in `s`.
pub open spec fn occurs(s: Seq<char>, c: char) -> bool {
    first_index(s, c) < s.len()
}

/// The part of `s` before the first `c`; all of `s` when `c` does not occur.
pub open spec fn before(s: Seq<char>, c: char) -> Seq<char> {
    s.take(first_index(s, c))
}

/// The part of `s` after the first `c`; empty when `c` does not occur.
pub open spec fn after(s: Seq<char>, c: char) -> Seq<char> {
    if occurs(s, c) {
        s.skip(first_index(s, c) + 1)
    } else {
        Seq::empty()
    }
}

/// The parts of `s` between the occurrences of `sep`, in order: one part more
/// than `sep` occurs, so at least one.
pub open spec fn segments(s: Seq<char>, sep: char) -> Seq<Seq<char>>
    decreases s.len(),
{
    let i = first_index(s, sep);
    if 0 <= i < s.len() {
        seq![s.take(i)] + segments(s.skip(i + 1), sep)
    } else {
        seq![s]
    }
}

/// The character sequences of a list of slices.
pub open spec fn views(parts: Seq<&[char]>) -> Seq<Seq<char>> {
    parts.map_values(|p: &[char]| p@)
}

/// `s` without leading and trailing blanks.
pub open spec fn trimmed(s: Seq<char>) -> Seq<char> {
    stripped(s, CharClass::Blank)
}

/// `s` without leading and trailing double quotes.
pub open spec fn unquoted(s: Seq<char>) -> Seq<char> {
    stripped(s, CharClass::Only('"'))
}

/// The first blank-delimited word of `s`; empty when `s` holds only blanks.
pub open spec fn first_word(s: Seq<char>) -> Seq<char> {
    let t = stripped_start(s, CharClass::Blank);
    t.take(first_in(t, CharClass::Blank))
}

/// What follows the first blank-delimited word of `s`.
pub open spec fn after_first_word(s: Seq<char>) -> Seq<char> {
    let t = stripped_start(s, CharClass::Blank);
    t.skip(first_in(t, CharClass::Blank))
}

/// Whether `p` stands in `s` at position `i`.
pub open spec fn occurs_at(s: Seq<char>, p: Seq<char>, i: int) -> bool {
    0 <= i && i + p.len() <= s.len() && s.subrange(i, i + p.len()) == p
}

/// Whether `p` occurs in `s` as a contiguous run.
pub open spec fn has_substring(s: Seq<char>, p: Seq<char>) -> bool {
    exists|i: int| occurs_at(s, p, i)
}

/// `first_in` is the least position whose character is in the class.
pub proof fn lemma_first_in(s: Seq<char>, class: CharClass)
    ensures
        0 <= first_in(s, class) <= s.len(),
        forall|k: int| 0 <= k < first_in(s, class) ==> !class.has(s[k]),
        first_in(s, class) < s.len() ==> class.has(s[first_in(s, class)]),
    decreases s.len(),
{
    if s.len() > 0 && !class.has(s[0]) {
        let t = s.drop_first();
        lemma_first_in(t, class);
        assert forall|k: int| 0 <= k < first_in(s, class) implies !class.has(s[k]) by {
            if k > 0 {
                assert(s[k] == t[k - 1]);
            }
        }
    }
}

/// A position that is in the class, or the end, with none before it, is `first_in`.
pub proof fn lemma_first_in_is(s: Seq<char>, class: CharClass, i: int)
    requires
        0 <= i <= s.len(),
        forall|k: int| 0 <= k < i ==> !class.has(s[k]),
        i < s.len() ==> class.has(s[i]),
    ensures
        first_in(s, class) == i,
{
    lemma_first_in(s, class);
    let j = first_in(s, class);
    if j < i {
        assert(!class.has(s[j]));
    } else if i < j {
        assert(!class.has(s[i]));
    }
}

/// `last_in` is the greatest position whose character is in the class.
pub proof fn lemma_last_in(s: Seq<char>, class: CharClass)
    ensures
        -1 <= last_in(s, class) < s.len(),
        forall|k: int| last_in(s, class) < k < s.len() ==> !class.has(s[k]),
        0 <= last_in(s, class) ==> class.has(s[last_in(s, class)]),
    decreases s.len(),
{
    if s.len() > 0 && !class.has(s.last()) {
        let t = s.drop_last();
        lemma_last_in(t, class);
        assert forall|k: int| last_in(s, class) < k < s.len() implies !class.has(s[k]) by {
            if k < s.len() - 1 {
                assert(s[k] == t[k]);
            }
        }
    }
}

/// A position that is in the class, or `-1`, with none after it, is `last_in`.
pub proof fn lemma_last_in_is(s: Seq<char>, class: CharClass, i: int)
    requires
        -1 <= i < s.len(),
        forall|k: int| i < k < s.len() ==> !class.has(s[k]),
        0 <= i ==> class.has(s[i]),
    ensures
        last_in(s, class) == i,
{
    lemma_last_in(s, class);
    let j = last_in(s, class);
    if j < i {
        assert(!class.has(s[i]));
    } else if i < j {
        assert(!class.has(s[j]));
    }
}

/// A text has at least one segment, and the first is what stands before the
/// first separator.
pub proof fn lemma_first_segment(s: Seq<char>, sep: char)
    ensures
        segments(s, sep).len() >= 1,
        segments(s, sep)[0] == before(s, sep),
{
    lemma_first_in(s, CharClass::Only(sep));
    if first_index(s, sep) >= s.len() {
        assert(s.take(s.len() as int) =~= s);
    }
}

/// A word: a text that is not empty and holds no blank.
pub open spec fn is_word(s: Seq<char>) -> bool {
    s.len() > 0 && forall|i: int| 0 <= i < s.len() ==> !is_blank(#[trigger] s[i])
}

/// Whether `s` holds nothing but blanks.
pub open spec fn all_blank(s: Seq<char>) -> bool {
    forall|i: int| 0 <= i < s.len() ==> is_blank(#[trigger] s[i])
}

/// Leading blanks before a text that does not start with a blank are what
/// `stripped_start` removes.
pub proof fn lemma_strip_leading_blanks(lead: Seq<char>, rest: Seq<char>)
    requires
        all_blank(lead),
        rest.len() == 0 || !is_blank(rest[0]),
    ensures
        stripped_start(lead + rest, CharClass::Blank) == rest,
    decreases lead.len(),
{
    if lead.len() == 0 {
        assert(lead + rest =~= rest);
    } else {
        assert((lead + rest)[0] == lead[0]);
        assert((lead + rest).drop_first() =~= lead.drop_first() + rest);
        assert forall|i: int| 0 <= i < lead.drop_first().len() implies is_blank(
            #[trigger] lead.drop_first()[i],
        ) by {
            assert(lead.drop_first()[i] == lead[i + 1]);
        }
        lemma_strip_leading_blanks(lead.drop_first(), rest);
    }
}

/// A word that stands after blanks and before a blank, or at the end, is
/// the first word; what follows it is what is left.
pub proof fn lemma_first_word(lead: Seq<char>, word: Seq<char>, rest: Seq<char>)
    requires
        all_blank(lead),
        is_word(word),
        rest.len() == 0 || is_blank(rest[0]),
    ensures
        first_word(lead + word + rest) == word,
        after_first_word(lead + word + rest) == rest,
{
    let t = word + rest;
    assert(t[0] == word[0]);
    assert(lead + word + rest =~= lead + t);
    lemma_strip_leading_blanks(lead, t);
    assert forall|k: int| 0 <= k < word.len() implies !CharClass::Blank.has(t[k]) by {
        assert(t[k] == word[k]);
    }
    if rest.len() > 0 {
        assert(t[word.len() as int] == rest[0]);
    }
    lemma_first_in_is(t, CharClass::Blank, word.len() as int);
    assert(t.take(word.len() as int) =~= word);
    assert(t.skip(word.len() as int) =~= rest);
}

/// Finds the first character of `s` in `class`; returns `s.len()` when there is none.
pub fn find_in(s: &[char], class: CharClass) -> (i: usize)
    ensures
        i == first_in(s@, class),
        i <= s@.len(),
{
    let mut i: usize = 0;
    while i < s.len() && !class.contains(s[i])
        invariant
            i <= s.len(),
            forall|k: int| 0 <= k < i ==> !class.has(s@[k]),
        decreases s.len() - i,
    {
        i += 1;
    }
    proof {
        lemma_first_in_is(s@, class, i as int);
    }
    i
}

/// Finds the first `c` in `s`; returns `s.len()` when there is none.
pub fn find(s: &[char], c: char) -> (i: usize)
    ensures
        i == first_index(s@, c),
        i <= s@.len(),
{
    find_in(s, CharClass::Only(c))
}

/// Finds the last `c` in `s`.
pub fn find_last(s: &[char], c: char) -> (r: Option<usize>)
    ensures
        match r {
            Some(i) => i == last_index(s@, c),
            None => last_index(s@, c) == -1,
        },
        r is Some ==> r->0 < s@.len(),
{
    let mut i: usize = s.len();
    while i > 0 && s[i - 1] != c
        invariant
            i <= s.len(),
            forall|k: int| i <= k < s.len() ==> s@[k] != c,
        decreases i,
    {
        i -= 1;
    }
    proof {
        lemma_last_in_is(s@, CharClass::Only(c), i - 1);
    }
    if i == 0 {
        None
    } else {
        Some(i - 1)
    }
}

/// The part of `s` from `from` up to `to`.
pub fn slice<'a>(s: &'a [char], from: usize, to: usize) -> (r: &'a [char])
    requires
        from <= to <= s@.len(),
    ensures
        r@ == s@.subrange(from as int, to as int),
{
    slice_subrange(s, from, to)
}

/// Splits `s` at the first `c`: what stands before it, and what stands after
/// it when `c` occurs.
pub fn split_first<'a>(s: &'a [char], c: char) -> (r: (&'a [char], Option<&'a [char]>))
    ensures
        r.0@ == before(s@, c),
        r.1 is Some == occurs(s@, c),
        r.1 is Some ==> r.1->0@ == after(s@, c),
{
    let i = find(s, c);
    let head = slice_subrange(s, 0, i);
    if i < s.len() {
        (head, Some(slice_subrange(s, i + 1, s.len())))
    } else {
        (head, None)
    }
}

/// Splits `s` at every `sep`.
pub fn split<'a>(s: &'a [char], sep: char) -> (r: Vec<&'a [char]>)
    ensures
        views(r@) == segments(s@, sep),
{
    let mut out: Vec<&'a [char]> = Vec::new();
    let mut rest: &'a [char] = s;
    assert(views(out@) + segments(rest@, sep) =~= segments(s@, sep));
    loop
        invariant
            views(out@) + segments(rest@, sep) == segments(s@, sep),
        decreases rest@.len(),
    {
        let i = find(rest, sep);
        let ghost done = views(out@);
        if i < rest.len() {
            let head = slice_subrange(rest, 0, i);
            out.push(head);
            let end = rest.len();
            let tail = slice_subrange(rest, i + 1, end);
            proof {
                assert(views(out@) =~= done.push(head@));
                assert(done.push(head@) + segments(tail@, sep) =~= done + segments(rest@, sep));
            }
            rest = tail;
        } else {
            out.push(rest);
            proof {
                assert(views(out@) =~= done.push(rest@));
                assert(done.push(rest@) =~= done + segments(rest@, sep));
            }
            return out;
        }
    }
}

/// Strips the characters in `class` from both ends of `s`.
pub fn strip<'a>(s: &'a [char], class: CharClass) -> (r: &'a [char])
    ensures
        r@ == stripped(s@, class),
{
    let mut a: usize = 0;
    assert(s@.skip(0) =~= s@);
    while a < s.len() && class.contains(s[a])
        invariant
            a <= s.len(),
            stripped_start(s@.skip(a as int), class) == stripped_start(s@, class),
        decreases s.len() - a,
    {
        proof {
            assert(s@.skip(a as int)[0] == s@[a as int]);
            assert(s@.skip(a as int).drop_first() =~= s@.skip(a + 1));
        }
        a += 1;
    }
    proof {
        if a < s.len() {
            assert(s@.skip(a as int)[0] == s@[a as int]);
        }
    }
    assert(stripped_start(s@, class) == s@.skip(a as int));
    let mut b: usize = s.len();
    while b > a && class.contains(s[b - 1])
        invariant
            a <= b <= s.len(),
            stripped_end(s@.subrange(a as int, b as int), class) == stripped(s@, class),
        decreases b,
    {
        proof {
            assert(s@.subrange(a as int, b as int).last() == s@[b - 1]);
            assert(s@.subrange(a as int, b as int).drop_last() =~= s@.subrange(a as int, b - 1));
        }
        b -= 1;
    }
    proof {
        if b > a {
            assert(s@.subrange(a as int, b as int).last() == s@[b - 1]);
        }
    }
    slice_subrange(s, a, b)
}

/// Strips blanks from both ends of `s`.
pub fn trim<'a>(s: &'a [char]) -> (r: &'a [char])
    ensures
        r@ == trimmed(s@),
{
    strip(s, CharClass::Blank)
}

/// Takes the first blank-delimited word off `s`: the word, and what follows it.
pub fn split_word<'a>(s: &'a [char]) -> (r: (&'a [char], &'a [char]))
    ensures
        r.0@ == first_word(s@),
        r.1@ == after_first_word(s@),
{
    let mut a: usize = 0;
    assert(s@.skip(0) =~= s@);
    while a < s.len() && CharClass::Blank.contains(s[a])
        invariant
            a <= s.len(),
            stripped_start(s@.skip(a as int), CharClass::Blank) == stripped_start(
                s@,
                CharClass::Blank,
            ),
        decreases s.len() - a,
    {
        proof {
            assert(s@.skip(a as int)[0] == s@[a as int]);
            assert(s@.skip(a as int).drop_first() =~= s@.skip(a + 1));
        }
        a += 1;
    }
    proof {
        if a < s.len() {
            assert(s@.skip(a as int)[0] == s@[a as int]);
        }
    }
    let t = slice_subrange(s, a, s.len());
    assert(t@ == stripped_start(s@, CharClass::Blank));
    let i = find_in(t, CharClass::Blank);
    (slice_subrange(t, 0, i), slice_subrange(t, i, t.len()))
}

/// Tells whether two slices hold the same characters.
pub fn same(a: &[char], b: &[char]) -> (r: bool)
    ensures
        r == (a@ == b@),
{
    if a.len() != b.len() {
        return false;
    }
    let mut i: usize = 0;
    while i < a.len()
        invariant
            a.len() == b.len(),
            i <= a.len(),
            forall|k: int| 0 <= k < i ==> a@[k] == b@[k],
        decreases a.len() - i,
    {
        if a[i] != b[i] {
            return false;
        }
        i += 1;
    }
    assert(a@ =~= b@);
    true
}

/// Tells whether `p` occurs in `s` as a contiguous run.
pub fn contains(s: &[char], p: &[char]) -> (r: bool)
    ensures
        r == has_substring(s@, p@),
{
    if p.len() == 0 {
        assert(s@.subrange(0, 0) =~= p@);
        assert(occurs_at(s@, p@, 0));
        return true;
    }
    if p.len() > s.len() {
        return false;
    }
    let last: usize = s.len() - p.len();
    let mut i: usize = 0;
    while i <= last
        invariant
            p.len() > 0,
            last == s.len() - p.len(),
            i <= last + 1,
            forall|k: int| 0 <= k < i ==> !occurs_at(s@, p@, k),
        decreases last + 1 - i,
    {
        if same(slice_subrange(s, i, i + p.len()), p) {
            assert(occurs_at(s@, p@, i as int));
            return true;
        }
        i += 1;
    }
    false
}

/// The characters of a string, in order.
pub fn chars_of(s: &str) -> (v: Vec<char>)
    ensures
        v@ == s@,
{
    let mut v: Vec<char> = Vec::new();
    for c in it: s.chars()
        invariant
            v@ == it.seq().take(it.index() as int),
            it.seq() == s@,
    {
        v.push(c);
    }
    v
}

/// Appends one character to a string.
///
/// Trusted: the body calls `String::push`, which appends the given `char` to
/// the end of the string.
#[verifier::external_body]
fn push_char(s: &mut String, c: char)
    ensures
        final(s)@ == old(s)@.push(c),
{
    s.push(c);
}

/// The string made of the characters of `s`.
pub fn string_of(s: &[char]) -> (r: String)
    ensures
        r@ == s@,
{
    let mut r = String::new();
    let mut i: usize = 0;
    while i < s.len()
        invariant
            i <= s.len(),
            r@ == s@.take(i as int),
        decreases s.len() - i,
    {
        push_char(&mut r, s[i]);
        i += 1;
        assert(s@.take(i as int) == s@.take(i - 1).push(s@[i - 1]));
    }
    assert(s@.take(s.len() as int) == s@);
    r
}

/// What `str::to_lowercase` makes of a text: its Unicode lowercase form.
pub uninterp spec fn lowered(s: Seq<char>) -> Seq<char>;

/// The lowercase form of `s`.
///
/// Trusted: the body calls `str::to_lowercase`, whose result depends on the
/// characters of `s` alone; the contract only gives that result its name.
#[verifier::external_body]
pub(crate) fn lowercase(s: &str) -> (r: String)
    ensures
        r@ == lowered(s@),
{
    s.to_lowercase()
}

/// Tells whether two strings hold the same characters.
pub fn str_eq(a: &str, b: &str) -> (r: bool)
    ensures
        r == (a@ == b@),
{
    let x = a.as_bytes();
    let y = b.as_bytes();
    proof {
        encode_utf8_decode_utf8(a@);
        encode_utf8_decode_utf8(b@);
    }
    if x.len() != y.len() {
        return false;
    }
    let mut i: usize = 0;
    while i < x.len()
        invariant
            x@ == encode_utf8(a@),
            y@ == encode_utf8(b@),
            decode_utf8(x@) == a@,
            decode_utf8(y@) == b@,
            x.len() == y.len(),
            i <= x.len(),
            forall|k: int| 0 <= k < i ==> x@[k] == y@[k],
        decreases x.len() - i,
    {
        if x[i] != y[i] {
            return false;
        }
        i += 1;
    }
    assert(x@ =~= y@);
    true
}

} // verus!
