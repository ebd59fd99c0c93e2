//! Unsigned numbers written in decimal or hexadecimal digits.

use vstd::prelude::*;
use vstd::slice::slice_subrange;

verus! {

/// The value of `c` as a digit in the given radix, if it is one: `0` to `9`,
/// then `a` to `f` in either case for ten to fifteen.
pub open spec fn digit_of(c: char, radix: nat) -> Option<nat> {
    let u = c as u32 as int;
    let d = if 0x30 <= u <= 0x39 {
        u - 0x30
    } else if 0x61 <= u <= 0x66 {
        u - 0x61 + 10
    } else if 0x41 <= u <= 0x46 {
        u - 0x41 + 10
    } else {
        radix as int
    };
    if d < radix {
        Some(d as nat)
    } else {
        None
    }
}

/// Whether every character of `s` is a digit in the given radix.
pub open spec fn all_digits(s: Seq<char>, radix: nat) -> bool {
    forall|i: int| 0 <= i < s.len() ==> (#[trigger] digit_of(s[i], radix)) is Some
}

/// The number that the digits of `s` denote, most significant first.
pub open spec fn digits_value(s: Seq<char>, radix: nat) -> nat
    decreases s.len(),
{
    if s.len() == 0 {
        0
    } else {
        digits_value(s.drop_last(), radix) * radix + match digit_of(s.last(), radix) {
            Some(d) => d,
            None => 0,
        }
    }
}

/// The digits of `s`: `s` itself, without one leading `+` if it has one.
pub open spec fn unsigned_part(s: Seq<char>) -> Seq<char> {
    if s.len() > 0 && s[0] == '+' {
        s.drop_first()
    } else {
        s
    }
}

/// The number written in `s`, when `s` is an optional `+` followed by one or
/// more digits in the given radix that denote a number of at most `max`.
pub open spec fn number_of(s: Seq<char>, radix: nat, max: nat) -> Option<nat> {
    let digits = unsigned_part(s);
    if digits.len() > 0 && all_digits(digits, radix) && digits_value(digits, radix) <= max {
        Some(digits_value(digits, radix))
    } else {
        None
    }
}

/// The character for a decimal digit.
pub open spec fn digit_char(d: nat) -> char {
    seq!['0', '1', '2', '3', '4', '5', '6', '7', '8', '9'][d as int]
}

/// `n` written in decimal, without leading zeros.
pub open spec fn decimal_text(n: nat) -> Seq<char>
    decreases n,
{
    if n < 10 {
        seq![digit_char(n)]
    } else {
        decimal_text(n / 10).push(digit_char(n % 10))
    }
}

/// A number is never smaller than the number that a prefix of its digits denotes.
pub proof fn lemma_digits_value_prefix(s: Seq<char>, radix: nat, k: int)
    requires
        radix >= 1,
        0 <= k <= s.len(),
    ensures
        digits_value(s.take(k), radix) <= digits_value(s, radix),
    decreases s.len(),
{
    if k == s.len() {
        assert(s.take(k) =~= s);
    } else {
        let t = s.drop_last();
        lemma_digits_value_prefix(t, radix, k);
        assert(t.take(k) =~= s.take(k));
        let v = digits_value(t, radix);
        assert(v * radix >= v) by (nonlinear_arith)
            requires
                radix >= 1,
                v >= 0,
        ;
    }
}

/// The decimal text of a number is made of decimal digits and denotes that number.
pub proof fn lemma_decimal_text(n: nat)
    ensures
        decimal_text(n).len() >= 1,
        all_digits(decimal_text(n), 10),
        digits_value(decimal_text(n), 10) == n,
    decreases n,
{
    let s = decimal_text(n);
    if n < 10 {
        assert(s.drop_last() =~= Seq::<char>::empty());
        assert(digit_of(s[0], 10) == Some(n));
        assert(digits_value(s.drop_last(), 10) == 0);
    } else {
        let t = decimal_text(n / 10);
        lemma_decimal_text(n / 10);
        assert(s.drop_last() =~= t);
        assert(digit_of(s.last(), 10) == Some(n % 10));
        assert forall|i: int| 0 <= i < s.len() implies (#[trigger] digit_of(s[i], 10)) is Some by {
            if i < t.len() {
                assert(s[i] == t[i]);
            }
        }
    }
}

/// Reading back the decimal text of a number gives that number.
pub proof fn lemma_number_of_decimal_text(n: nat, max: nat)
    requires
        n <= max,
    ensures
        number_of(decimal_text(n), 10, max) == Some(n),
{
    lemma_decimal_text(n);
    let s = decimal_text(n);
    assert(digit_of(s[0], 10) is Some);
}

/// The value of `c` as a digit in the given radix.
pub fn digit(c: char, radix: usize) -> (r: Option<usize>)
    ensures
        match r {
            Some(d) => digit_of(c, radix as nat) == Some(d as nat),
            None => digit_of(c, radix as nat) is None,
        },
{
    let u: u32 = c as u32;
    let d: usize = if 0x30 <= u && u <= 0x39 {
        (u - 0x30) as usize
    } else if 0x61 <= u && u <= 0x66 {
        (u - 0x61 + 10) as usize
    } else if 0x41 <= u && u <= 0x46 {
        (u - 0x41 + 10) as usize
    } else {
        radix
    };
    if d < radix {
        Some(d)
    } else {
        None
    }
}

/// Reads an unsigned number of at most `max` from `s`: an optional `+`, then
/// one or more digits in the given radix and nothing else.
pub fn parse_number(s: &[char], radix: usize, max: usize) -> (r: Option<usize>)
    requires
        radix >= 1,
    ensures
        match r {
            Some(n) => number_of(s@, radix as nat, max as nat) == Some(n as nat),
            None => number_of(s@, radix as nat, max as nat) is None,
        },
{
    let digits = if s.len() > 0 && s[0] == '+' {
        slice_subrange(s, 1, s.len())
    } else {
        s
    };
    assert(digits@ =~= unsigned_part(s@));
    if digits.len() == 0 {
        return None;
    }
    let mut acc: usize = 0;
    let mut i: usize = 0;
    assert(digits@.take(0) =~= Seq::<char>::empty());
    while i < digits.len()
        invariant
            radix >= 1,
            digits@ == unsigned_part(s@),
            digits.len() > 0,
            i <= digits.len(),
            all_digits(digits@.take(i as int), radix as nat),
            acc == digits_value(digits@.take(i as int), radix as nat),
            acc <= max,
        decreases digits.len() - i,
    {
        let ghost prefix = digits@.take(i as int);
        let ghost next = digits@.take(i + 1);
        proof {
            assert(next.drop_last() =~= prefix);
            assert(next.last() == digits@[i as int]);
            lemma_digits_value_prefix(digits@, radix as nat, i + 1);
        }
        let d = match digit(digits[i], radix) {
            Some(d) => d,
            None => {
                assert(digit_of(digits@[i as int], radix as nat) is None);
                return None;
            },
        };
        let grown = match acc.checked_mul(radix) {
            Some(m) => m.checked_add(d),
            None => None,
        };
        match grown {
            Some(n) => {
                if n > max {
                    return None;
                }
                acc = n;
            },
            None => {
                return None;
            },
        }
        i += 1;
        proof {
            assert forall|k: int| 0 <= k < next.len() implies (#[trigger] digit_of(
                next[k],
                radix as nat,
            )) is Some by {
                if k < prefix.len() {
                    assert(next[k] == prefix[k]);
                }
            }
        }
    }
    assert(digits@.take(digits.len() as int) =~= digits@);
    Some(acc)
}

/// The character for the decimal digit `d`.
pub fn decimal_digit(d: u8) -> (c: char)
    requires
        d < 10,
    ensures
        c == digit_char(d as nat),
{
    if d == 0 {
        '0'
    } else if d == 1 {
        '1'
    } else if d == 2 {
        '2'
    } else if d == 3 {
        '3'
    } else if d == 4 {
        '4'
    } else if d == 5 {
        '5'
    } else if d == 6 {
        '6'
    } else if d == 7 {
        '7'
    } else if d == 8 {
        '8'
    } else {
        '9'
    }
}

/// Appends `n`, written in decimal, to `out`.
pub fn push_decimal(out: &mut Vec<char>, n: usize)
    ensures
        final(out)@ == old(out)@ + decimal_text(n as nat),
    decreases n,
{
    if n >= 10 {
        push_decimal(out, n / 10);
    }
    let d: usize = n % 10;
    out.push(decimal_digit(d as u8));
    proof {
        if n >= 10 {
            assert(final(out)@ =~= old(out)@ + decimal_text(n as nat));
        } else {
            assert(final(out)@ =~= old(out)@ + decimal_text(n as nat));
        }
    }
}

} // verus!
