//! Passwords: numbers whose digits never decrease and hold a double.

use crate::text::{
    as_u32, chars, is_digit, is_number, number, parse_u32, split, split_at, views,
};
use vstd::prelude::*;

verus! {

/// The range that a text denotes: its pieces between hyphens are numbers of
/// 32 bits, at least two of them, and the first two are the ends.
pub open spec fn range(s: Seq<char>) -> Option<(u32, u32)> {
    let pieces = split(s, '-');
    if pieces.len() >= 2 && forall|i: int|
        0 <= i < pieces.len() ==> (#[trigger] as_u32(pieces[i])) is Some {
        Some((as_u32(pieces[0]).unwrap(), as_u32(pieces[1]).unwrap()))
    } else {
        None
    }
}

/// Whether `s` consists of decimal digits.
pub open spec fn all_digits(s: Seq<char>) -> bool {
    forall|i: int| 0 <= i < s.len() ==> is_digit(#[trigger] s[i])
}

/// Whether two neighbours among the first `n + 1` characters are the same.
pub open spec fn has_double(s: Seq<char>, n: int) -> bool {
    exists|i: int| 0 <= i < n && #[trigger] s[i] == s[i + 1]
}

/// Whether a character among the first `n + 1` is greater than the next.
pub open spec fn decreases_somewhere(s: Seq<char>, n: int) -> bool {
    exists|i: int| 0 <= i < n && #[trigger] s[i] > s[i + 1]
}

/// The number of places among the first `n` where the character `d` stands
/// next to itself.
pub open spec fn doubles(s: Seq<char>, d: char, n: int) -> nat
    decreases n,
{
    if n <= 0 {
        0
    } else {
        doubles(s, d, n - 1) + if s[n - 1] == d && s[n] == d {
            1nat
        } else {
            0nat
        }
    }
}

/// Whether `s` is a password: digits that never decrease, with two
/// neighbours the same.
pub open spec fn is_password(s: Seq<char>) -> bool {
    all_digits(s) && has_double(s, s.len() - 1) && !decreases_somewhere(s, s.len() - 1)
}

/// Whether `s` is a password of the stricter kind: digits that never
/// decrease, with a digit that stands next to itself at exactly one place.
pub open spec fn is_strict_password(s: Seq<char>) -> bool {
    all_digits(s) && !decreases_somewhere(s, s.len() - 1) && exists|d: char|
        is_digit(d) && #[trigger] doubles(s, d, s.len() - 1) == 1
}

/// The decimal digits of a number, without leading zeros.
pub open spec fn decimal(x: nat) -> Seq<char>
    decreases x,
{
    if x < 10 {
        seq![('0' as int + x) as char]
    } else {
        decimal(x / 10).push(('0' as int + x % 10) as char)
    }
}

/// The decimal digits of a number are digits, and denote the number.
pub proof fn lemma_decimal(x: nat)
    ensures
        is_number(decimal(x)),
        number(decimal(x)) == x,
        x > 0 ==> decimal(x)[0] != '0',
    decreases x,
{
    if x >= 10 {
        lemma_decimal(x / 10);
        let shorter = decimal(x / 10);
        let all = decimal(x);
        assert(all.drop_last() =~= shorter);
        assert forall|i: int| 0 <= i < all.len() implies is_digit(#[trigger] all[i]) by {
            if i < shorter.len() {
                assert(all[i] == shorter[i]);
            }
        }
    } else {
        let all = decimal(x);
        assert(all.drop_last() =~= Seq::<char>::empty());
        reveal_with_fuel(number, 2);
    }
}

/// The number of passwords among the numbers from `a` up to `b`.
pub open spec fn passwords(a: int, b: int) -> nat
    decreases b - a + 1,
{
    if b < a {
        0
    } else {
        passwords(a, b - 1) + if is_password(decimal(b as nat)) {
            1nat
        } else {
            0nat
        }
    }
}

/// The number of passwords of the stricter kind among the numbers from `a` up
/// to `b`.
pub open spec fn strict_passwords(a: int, b: int) -> nat
    decreases b - a + 1,
{
    if b < a {
        0
    } else {
        strict_passwords(a, b - 1) + if is_strict_password(decimal(b as nat)) {
            1nat
        } else {
            0nat
        }
    }
}

/// There are no more passwords in a range than numbers.
pub proof fn lemma_passwords_bound(a: int, b: int)
    ensures
        passwords(a, b) <= if b < a {
            0
        } else {
            b - a + 1
        },
        strict_passwords(a, b) <= if b < a {
            0
        } else {
            b - a + 1
        },
    decreases b - a + 1,
{
    if b >= a {
        lemma_passwords_bound(a, b - 1);
    }
}

/// Reads the two ends of the range.
pub fn generator_input(input: &str) -> (r: Option<(u32, u32)>)
    ensures
        r == range(input@),
{
    let text = chars(input);
    let pieces = split_at(&text, '-');
    let mut nbs: Vec<u32> = Vec::new();
    let mut i: usize = 0;
    while i < pieces.len()
        invariant
            i <= pieces.len(),
            nbs@.len() == i,
            views(pieces@) == split(input@, '-'),
            forall|j: int| 0 <= j < i ==> as_u32(#[trigger] views(pieces@)[j]) == Some(nbs@[j]),
        decreases pieces.len() - i,
    {
        assert(views(pieces@)[i as int] == pieces@[i as int]@);
        match parse_u32(&pieces[i]) {
            Some(nb) => {
                nbs.push(nb);
            },
            None => {
                return None;
            },
        }
        i += 1;
    }
    if nbs.len() >= 2 {
        Some((nbs[0], nbs[1]))
    } else {
        None
    }
}

/// Whether the characters are a password.
pub fn check(x: &Vec<char>) -> (ok: bool)
    ensures
        ok == is_password(x@),
{
    let mut adjacent: bool = false;
    let mut i: usize = 0;
    while i < x.len()
        invariant
            i <= x.len(),
            forall|j: int| 0 <= j < i ==> is_digit(#[trigger] x@[j]),
            i <= 1 ==> !adjacent,
            i >= 1 ==> adjacent == has_double(x@, i - 1),
            i >= 1 ==> !decreases_somewhere(x@, i - 1),
        decreases x.len() - i,
    {
        let b: char = x[i];
        if b < '0' || b > '9' {
            return false;
        }
        if i > 0 {
            let a: char = x[i - 1];
            if a > b {
                assert(x@[i - 1] > x@[i - 1 + 1]);
                return false;
            }
            if a == b {
                assert(x@[i - 1] == x@[i - 1 + 1]);
                adjacent = true;
            }
        }
        i += 1;
    }
    adjacent
}

/// Whether the characters are a password of the stricter kind.
pub fn check_two(x: &Vec<char>) -> (ok: bool)
    ensures
        ok == is_strict_password(x@),
{
    let mut nb_adjacent: Vec<usize> = Vec::new();
    let mut d: usize = 0;
    while d < 10
        invariant
            d <= 10,
            nb_adjacent@.len() == d,
            forall|k: int| 0 <= k < d ==> #[trigger] nb_adjacent@[k] == 0,
        decreases 10 - d,
    {
        nb_adjacent.push(0);
        d += 1;
    }
    let mut i: usize = 0;
    while i < x.len()
        invariant
            i <= x.len(),
            nb_adjacent@.len() == 10,
            forall|j: int| 0 <= j < i ==> is_digit(#[trigger] x@[j]),
            i >= 1 ==> !decreases_somewhere(x@, i - 1),
            forall|k: int|
                0 <= k < 10 ==> #[trigger] nb_adjacent@[k] == doubles(
                    x@,
                    ('0' as int + k) as char,
                    i - 1,
                ),
            forall|k: int| 0 <= k < 10 ==> #[trigger] nb_adjacent@[k] <= i,
        decreases x.len() - i,
    {
        let b: char = x[i];
        if b < '0' || b > '9' {
            return false;
        }
        if i > 0 {
            let a: char = x[i - 1];
            if a > b {
                assert(x@[i - 1] > x@[i - 1 + 1]);
                return false;
            }
            if a == b {
                let at: usize = (a as u32 - '0' as u32) as usize;
                let count: usize = nb_adjacent[at];
                nb_adjacent.set(at, count + 1);
            }
        }
        i += 1;
    }
    let mut once: bool = false;
    let mut k: usize = 0;
    while k < 10
        invariant
            k <= 10,
            nb_adjacent@.len() == 10,
            once == exists|j: int| 0 <= j < k && #[trigger] nb_adjacent@[j] == 1,
        decreases 10 - k,
    {
        if nb_adjacent[k] == 1 {
            once = true;
        }
        k += 1;
    }
    proof {
        if once {
            let j = choose|j: int| 0 <= j < 10 && #[trigger] nb_adjacent@[j] == 1;
            assert(doubles(x@, ('0' as int + j) as char, x@.len() - 1) == 1);
        }
        if is_strict_password(x@) {
            let d = choose|d: char| is_digit(d) && #[trigger] doubles(x@, d, x@.len() - 1) == 1;
            let j = d as int - '0' as int;
            assert(('0' as int + j) as char == d);
            assert(nb_adjacent@[j] == 1);
        }
    }
    once
}

/// Whether a text is a password.
pub fn pass_match(x: &str) -> (ok: bool)
    ensures
        ok == is_password(x@),
{
    check(&chars(x))
}

/// Whether a text is a password of the stricter kind.
pub fn pass_match_two(x: &str) -> (ok: bool)
    ensures
        ok == is_strict_password(x@),
{
    check_two(&chars(x))
}

/// The decimal digits of a number.
pub fn digits(x: u32) -> (text: Vec<char>)
    ensures
        text@ == decimal(x as nat),
    decreases x,
{
    let last: char = (('0' as u32) + x % 10) as u8 as char;
    if x < 10 {
        let mut text: Vec<char> = Vec::new();
        text.push(last);
        text
    } else {
        let mut text = digits(x / 10);
        text.push(last);
        text
    }
}

/// The number of passwords from `a` up to `b`.
pub fn part_one(range: &(u32, u32)) -> (count: u64)
    ensures
        count == passwords(range.0 as int, range.1 as int),
{
    let a: u32 = range.0;
    let b: u32 = range.1;
    if b < a {
        return 0;
    }
    let mut count: u64 = 0;
    let mut x: u32 = a;
    loop
        invariant
            a == range.0,
            b == range.1,
            a <= x <= b,
            count == passwords(a as int, x - 1),
        decreases b - x,
    {
        proof {
            lemma_passwords_bound(a as int, x - 1);
        }
        if check(&digits(x)) {
            count = count + 1;
        }
        if x == b {
            return count;
        }
        x = x + 1;
    }
}

/// The number of passwords of the stricter kind from `a` up to `b`.
pub fn part_two(range: &(u32, u32)) -> (count: u64)
    ensures
        count == strict_passwords(range.0 as int, range.1 as int),
{
    let a: u32 = range.0;
    let b: u32 = range.1;
    if b < a {
        return 0;
    }
    let mut count: u64 = 0;
    let mut x: u32 = a;
    loop
        invariant
            a == range.0,
            b == range.1,
            a <= x <= b,
            count == strict_passwords(a as int, x - 1),
        decreases b - x,
    {
        proof {
            lemma_passwords_bound(a as int, x - 1);
        }
        if check_two(&digits(x)) {
            count = count + 1;
        }
        if x == b {
            return count;
        }
        x = x + 1;
    }
}

} // verus!
