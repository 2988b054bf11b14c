//! Reading puzzle input: cutting text into pieces and reading decimal numbers.
//!
//! Text is handled as a sequence of characters. Each function here has a
//! specification that says, character by character, what it accepts and what
//! it returns for it.

use vstd::prelude::*;

verus! {

/// The views of a sequence of character vectors.
pub open spec fn views(pieces: Seq<Vec<char>>) -> Seq<Seq<char>> {
    pieces.map_values(|piece: Vec<char>| piece@)
}

/// The pieces of `s` between the occurrences of `sep`. There is one piece more
/// than there are separators, so the empty text has one empty piece.
pub open spec fn split(s: Seq<char>, sep: char) -> Seq<Seq<char>>
    decreases s.len(),
{
    if s.len() == 0 {
        seq![Seq::<char>::empty()]
    } else {
        let before = split(s.drop_last(), sep);
        if s.last() == sep {
            before.push(Seq::<char>::empty())
        } else {
            before.drop_last().push(before.last().push(s.last()))
        }
    }
}

/// The pieces put together again, with `sep` between them.
pub open spec fn join(pieces: Seq<Seq<char>>, sep: char) -> Seq<char>
    decreases pieces.len(),
{
    if pieces.len() == 0 {
        Seq::empty()
    } else if pieces.len() == 1 {
        pieces[0]
    } else {
        join(pieces.drop_last(), sep).push(sep) + pieces.last()
    }
}

/// Cutting a text yields at least one piece, no piece holds the separator,
/// and the pieces with the separator between them are the text again.
pub proof fn lemma_split_and_join(s: Seq<char>, sep: char)
    ensures
        split(s, sep).len() >= 1,
        forall|i: int, j: int|
            0 <= i < split(s, sep).len() && 0 <= j < split(s, sep)[i].len() ==> #[trigger] split(
                s,
                sep,
            )[i][j] != sep,
        join(split(s, sep), sep) == s,
    decreases s.len(),
{
    if s.len() > 0 {
        let before = split(s.drop_last(), sep);
        let pieces = split(s, sep);
        lemma_split_and_join(s.drop_last(), sep);
        if s.last() == sep {
            assert(pieces.drop_last() =~= before);
            assert(join(pieces, sep) =~= s.drop_last().push(sep));
            assert(s.drop_last().push(sep) =~= s);
            assert forall|i: int, j: int|
                0 <= i < pieces.len() && 0 <= j < pieces[i].len() implies #[trigger] pieces[i][j]
                != sep by {
                assert(pieces[i] == before[i]);
            }
        } else {
            let grown = before.last().push(s.last());
            assert(pieces.last() == grown);
            assert(pieces.drop_last() =~= before.drop_last());
            if before.len() == 1 {
                assert(join(pieces, sep) =~= s.drop_last().push(s.last()));
            } else {
                assert(join(pieces, sep) =~= (join(before.drop_last(), sep).push(sep)
                    + before.last()).push(s.last()));
            }
            assert(s.drop_last().push(s.last()) =~= s);
            assert forall|i: int, j: int|
                0 <= i < pieces.len() && 0 <= j < pieces[i].len() implies #[trigger] pieces[i][j]
                != sep by {
                if i < pieces.len() - 1 {
                    assert(pieces[i] == before[i]);
                } else if j < before.last().len() {
                    assert(pieces[i][j] == before[i][j]);
                }
            }
        }
    } else {
        assert(join(split(s, sep), sep) =~= s);
    }
}

/// The lines of `s`: its pieces between line feeds, without the last piece
/// when that one is empty. So a final line feed is optional, and the empty
/// text has no lines.
pub open spec fn lines(s: Seq<char>) -> Seq<Seq<char>> {
    let pieces = split(s, '\n');
    if pieces.last().len() == 0 {
        pieces.drop_last()
    } else {
        pieces
    }
}

/// Whether `c` is one of the ten decimal digits.
pub open spec fn is_digit(c: char) -> bool {
    '0' <= c <= '9'
}

/// Whether `s` consists of decimal digits, at least one.
pub open spec fn is_number(s: Seq<char>) -> bool {
    s.len() > 0 && forall|i: int| 0 <= i < s.len() ==> is_digit(#[trigger] s[i])
}

/// The number that a sequence of decimal digits denotes.
pub open spec fn number(s: Seq<char>) -> nat
    decreases s.len(),
{
    if s.len() == 0 {
        0
    } else {
        (number(s.drop_last()) * 10 + (s.last() as int - '0' as int)) as nat
    }
}

/// The integer that `s` denotes as a decimal literal: an optional sign
/// followed by at least one digit, and nothing else.
pub open spec fn integer(s: Seq<char>) -> Option<int> {
    if s.len() > 0 && s[0] == '-' {
        if is_number(s.drop_first()) {
            Some(-(number(s.drop_first()) as int))
        } else {
            None
        }
    } else if s.len() > 0 && s[0] == '+' {
        if is_number(s.drop_first()) {
            Some(number(s.drop_first()) as int)
        } else {
            None
        }
    } else if is_number(s) {
        Some(number(s) as int)
    } else {
        None
    }
}

/// The integer that `s` denotes, if it lies between `low` and `high`.
pub open spec fn integer_within(s: Seq<char>, low: int, high: int) -> Option<int> {
    match integer(s) {
        Some(value) => if low <= value <= high {
            Some(value)
        } else {
            None
        },
        None => None,
    }
}

/// The 64-bit integer that `s` denotes, if it denotes one.
pub open spec fn as_i64(s: Seq<char>) -> Option<i64> {
    match integer_within(s, i64::MIN as int, i64::MAX as int) {
        Some(value) => Some(value as i64),
        None => None,
    }
}

/// The 32-bit integer that `s` denotes, if it denotes one.
pub open spec fn as_i32(s: Seq<char>) -> Option<i32> {
    match integer_within(s, i32::MIN as int, i32::MAX as int) {
        Some(value) => Some(value as i32),
        None => None,
    }
}

/// The number that `s` denotes as an unsigned decimal literal of 32 bits: an
/// optional plus sign followed by at least one digit, and nothing else.
pub open spec fn as_u32(s: Seq<char>) -> Option<u32> {
    let digits = if s.len() > 0 && s[0] == '+' {
        s.drop_first()
    } else {
        s
    };
    if is_number(digits) && number(digits) <= u32::MAX {
        Some(number(digits) as u32)
    } else {
        None
    }
}

/// The number of elements at the front of `list` that differ from `name`: the
/// place of the first occurrence of `name`, or the length of the list if it
/// does not occur.
pub open spec fn place(list: Seq<Seq<char>>, name: Seq<char>) -> int
    decreases list.len(),
{
    if list.len() == 0 {
        0
    } else if list[0] == name {
        0
    } else {
        1 + place(list.drop_first(), name)
    }
}

/// The list with `name` put behind it, unless it occurs in the list.
pub open spec fn with_name(list: Seq<Seq<char>>, name: Seq<char>) -> Seq<Seq<char>> {
    if place(list, name) < list.len() {
        list
    } else {
        list.push(name)
    }
}

/// The views of a sequence of strings.
pub open spec fn texts(names: Seq<String>) -> Seq<Seq<char>> {
    names.map_values(|name: String| name@)
}

/// The place of a name is the first index at which it occurs.
pub proof fn lemma_place(list: Seq<Seq<char>>, name: Seq<char>, i: int)
    requires
        0 <= i <= list.len(),
        forall|j: int| 0 <= j < i ==> #[trigger] list[j] != name,
        i < list.len() ==> list[i] == name,
    ensures
        place(list, name) == i,
    decreases list.len(),
{
    if list.len() > 0 && i > 0 {
        let rest = list.drop_first();
        assert forall|j: int| 0 <= j < i - 1 implies #[trigger] rest[j] != name by {
            assert(list[j + 1] != name);
        }
        lemma_place(rest, name, i - 1);
    }
}

/// The place of a name lies in the list or just behind it, and at its place
/// in the list stands the name.
pub proof fn lemma_place_bounds(list: Seq<Seq<char>>, name: Seq<char>)
    ensures
        0 <= place(list, name) <= list.len(),
        place(list, name) < list.len() ==> list[place(list, name)] == name,
    decreases list.len(),
{
    if list.len() > 0 && list[0] != name {
        lemma_place_bounds(list.drop_first(), name);
    }
}

/// The 64-bit integers that the pieces denote, if each of them denotes one.
pub open spec fn all_i64(pieces: Seq<Seq<char>>) -> Option<Seq<i64>> {
    if forall|i: int| 0 <= i < pieces.len() ==> (#[trigger] as_i64(pieces[i])) is Some {
        Some(Seq::new(pieces.len(), |i: int| as_i64(pieces[i]).unwrap()))
    } else {
        None
    }
}

/// The 32-bit integers that the pieces denote, if each of them denotes one.
pub open spec fn all_i32(pieces: Seq<Seq<char>>) -> Option<Seq<i32>> {
    if forall|i: int| 0 <= i < pieces.len() ==> (#[trigger] as_i32(pieces[i])) is Some {
        Some(Seq::new(pieces.len(), |i: int| as_i32(pieces[i]).unwrap()))
    } else {
        None
    }
}

/// A number grows, or stays, when a digit is put behind it.
pub proof fn lemma_number_grows(s: Seq<char>, k: int)
    requires
        0 <= k <= s.len(),
        forall|i: int| 0 <= i < s.len() ==> is_digit(#[trigger] s[i]),
    ensures
        number(s.take(k)) <= number(s),
    decreases s.len() - k,
{
    if k < s.len() {
        lemma_number_grows(s.drop_last(), k);
        assert(s.drop_last().take(k) =~= s.take(k));
        assert(is_digit(s[s.len() - 1]));
    } else {
        assert(s.take(k) =~= s);
    }
}

/// The characters of a string.
pub fn chars(s: &str) -> (v: Vec<char>)
    ensures
        v@ == s@,
{
    let mut v: Vec<char> = Vec::new();
    for c in it: s.chars()
        invariant
            it.seq() == s@,
            v@ == it.seq().take(it.index() as int),
    {
        v.push(c);
    }
    v
}

/// Calls `String::from_iter` on the characters: the string that consists of
/// them.
#[verifier::external_body]
pub(crate) fn string_of(chars: &Vec<char>) -> (s: String)
    ensures
        s@ == chars@,
{
    String::from_iter(chars.iter())
}

/// Cuts `s` at each occurrence of `sep`.
pub fn split_at(s: &Vec<char>, sep: char) -> (pieces: Vec<Vec<char>>)
    ensures
        views(pieces@) == split(s@, sep),
{
    let mut pieces: Vec<Vec<char>> = Vec::new();
    let mut current: Vec<char> = Vec::new();
    let mut i: usize = 0;
    while i < s.len()
        invariant
            i <= s.len(),
            views(pieces@).push(current@) == split(s@.take(i as int), sep),
        decreases s.len() - i,
    {
        let c: char = s[i];
        proof {
            let next = s@.take(i + 1);
            assert(next.drop_last() =~= s@.take(i as int));
            assert(next.last() == c);
            assert(views(pieces@).push(current@).drop_last() =~= views(pieces@));
        }
        if c == sep {
            let ghost old_pieces = pieces@;
            pieces.push(current);
            current = Vec::new();
            proof {
                assert(views(pieces@) =~= views(old_pieces).push(pieces@.last()@));
            }
        } else {
            current.push(c);
        }
        i += 1;
    }
    proof {
        assert(s@.take(i as int) =~= s@);
    }
    let ghost old_pieces = pieces@;
    pieces.push(current);
    proof {
        assert(views(pieces@) =~= views(old_pieces).push(pieces@.last()@));
    }
    pieces
}

/// Cuts `s` into its lines.
pub fn split_lines(s: &Vec<char>) -> (pieces: Vec<Vec<char>>)
    ensures
        views(pieces@) == lines(s@),
{
    let mut pieces = split_at(s, '\n');
    proof {
        lemma_split_and_join(s@, '\n');
    }
    if pieces[pieces.len() - 1].len() == 0 {
        let ghost old_pieces = pieces@;
        pieces.pop();
        proof {
            assert(views(pieces@) =~= views(old_pieces).drop_last());
        }
    }
    pieces
}

/// Reads the digits of `s` from `start` on as a number of at most `limit`.
fn parse_digits(s: &Vec<char>, start: usize, limit: u64) -> (r: Option<u64>)
    requires
        start <= s.len(),
    ensures
        r == (if is_number(s@.skip(start as int)) && number(s@.skip(start as int)) <= limit {
            Some(number(s@.skip(start as int)) as u64)
        } else {
            None
        }),
{
    let ghost digits = s@.skip(start as int);
    if start == s.len() {
        return None;
    }
    let mut acc: u128 = 0;
    let mut i: usize = start;
    while i < s.len()
        invariant
            start <= i <= s.len(),
            digits == s@.skip(start as int),
            forall|j: int| 0 <= j < i - start ==> is_digit(#[trigger] digits[j]),
            acc == number(digits.take(i - start)),
            acc <= limit,
        decreases s.len() - i,
    {
        let c: char = s[i];
        assert(digits[i - start] == c);
        if c < '0' || c > '9' {
            return None;
        }
        let d: u128 = (c as u32 - '0' as u32) as u128;
        proof {
            let next = digits.take(i - start + 1);
            assert(next.drop_last() =~= digits.take(i - start));
            assert(next.last() == c);
            assert(number(next) == acc * 10 + d);
        }
        acc = acc * 10 + d;
        if acc > limit as u128 {
            proof {
                if is_number(digits) {
                    lemma_number_grows(digits, i - start + 1);
                }
            }
            return None;
        }
        i += 1;
    }
    proof {
        assert(digits.take(i - start) =~= digits);
    }
    Some(acc as u64)
}

/// Reads `s` as a number of at most `limit`, written in digits alone.
pub fn parse_number(s: &Vec<char>, limit: u64) -> (r: Option<u64>)
    ensures
        r == (if is_number(s@) && number(s@) <= limit {
            Some(number(s@) as u64)
        } else {
            None
        }),
{
    proof {
        assert(s@ =~= s@.skip(0));
    }
    parse_digits(s, 0, limit)
}

/// Reads `s` as a decimal literal that fits in 64 bits.
pub fn parse_i64(s: &Vec<char>) -> (r: Option<i64>)
    ensures
        r == as_i64(s@),
{
    if s.len() > 0 && s[0] == '-' {
        proof {
            assert(s@.drop_first() =~= s@.skip(1));
        }
        match parse_digits(s, 1, 0x8000_0000_0000_0000) {
            Some(value) => {
                if value == 0x8000_0000_0000_0000 {
                    Some(i64::MIN)
                } else {
                    Some(-(value as i64))
                }
            },
            None => None,
        }
    } else if s.len() > 0 && s[0] == '+' {
        proof {
            assert(s@.drop_first() =~= s@.skip(1));
        }
        match parse_digits(s, 1, 0x7fff_ffff_ffff_ffff) {
            Some(value) => Some(value as i64),
            None => None,
        }
    } else {
        proof {
            assert(s@ =~= s@.skip(0));
        }
        match parse_digits(s, 0, 0x7fff_ffff_ffff_ffff) {
            Some(value) => Some(value as i64),
            None => None,
        }
    }
}

/// Reads `s` as a decimal literal that fits in 32 bits.
pub fn parse_i32(s: &Vec<char>) -> (r: Option<i32>)
    ensures
        r == as_i32(s@),
{
    match parse_i64(s) {
        Some(value) => {
            if -0x8000_0000 <= value && value <= 0x7fff_ffff {
                Some(value as i32)
            } else {
                None
            }
        },
        None => None,
    }
}

/// Reads `s` as an unsigned decimal literal that fits in 32 bits.
pub fn parse_u32(s: &Vec<char>) -> (r: Option<u32>)
    ensures
        r == as_u32(s@),
{
    let start: usize = if s.len() > 0 && s[0] == '+' {
        1
    } else {
        0
    };
    proof {
        assert(s@.drop_first() =~= s@.skip(1));
        assert(s@ =~= s@.skip(0));
    }
    match parse_digits(s, start, 0xffff_ffff) {
        Some(value) => Some(value as u32),
        None => None,
    }
}

/// The place of a name in a list.
pub fn find(names: &Vec<String>, name: &String) -> (at: usize)
    ensures
        at == place(texts(names@), name@),
        at <= names.len(),
{
    let mut at: usize = 0;
    while at < names.len()
        invariant
            at <= names.len(),
            forall|j: int| 0 <= j < at ==> #[trigger] texts(names@)[j] != name@,
        decreases names.len() - at,
    {
        assert(texts(names@)[at as int] == names@[at as int]@);
        if names[at] == *name {
            proof {
                lemma_place(texts(names@), name@, at as int);
            }
            return at;
        }
        at += 1;
    }
    proof {
        lemma_place(texts(names@), name@, at as int);
    }
    at
}

/// The place of a name in a list, to which the name is added if it does not
/// occur.
pub fn intern(names: &mut Vec<String>, name: &String) -> (at: usize)
    ensures
        texts(final(names)@) == with_name(texts(old(names)@), name@),
        at == place(texts(old(names)@), name@),
        at < final(names).len(),
{
    let at = find(names, name);
    if at == names.len() {
        let ghost before = names@;
        names.push(name.clone());
        proof {
            assert(texts(names@) =~= texts(before).push(name@));
        }
    }
    at
}

/// Reads each piece as a decimal literal that fits in 64 bits.
pub fn parse_all_i64(pieces: &Vec<Vec<char>>) -> (r: Option<Vec<i64>>)
    ensures
        match r {
            Some(values) => all_i64(views(pieces@)) == Some(values@),
            None => all_i64(views(pieces@)) is None,
        },
{
    let mut values: Vec<i64> = Vec::new();
    let mut i: usize = 0;
    while i < pieces.len()
        invariant
            i <= pieces.len(),
            values@.len() == i,
            forall|j: int| 0 <= j < i ==> as_i64(#[trigger] views(pieces@)[j]) == Some(values@[j]),
        decreases pieces.len() - i,
    {
        assert(views(pieces@)[i as int] == pieces@[i as int]@);
        match parse_i64(&pieces[i]) {
            Some(value) => {
                values.push(value);
            },
            None => {
                return None;
            },
        }
        i += 1;
    }
    proof {
        assert(values@ =~= all_i64(views(pieces@)).unwrap());
    }
    Some(values)
}

/// Reads each piece as a decimal literal that fits in 32 bits.
pub fn parse_all_i32(pieces: &Vec<Vec<char>>) -> (r: Option<Vec<i32>>)
    ensures
        match r {
            Some(values) => all_i32(views(pieces@)) == Some(values@),
            None => all_i32(views(pieces@)) is None,
        },
{
    let mut values: Vec<i32> = Vec::new();
    let mut i: usize = 0;
    while i < pieces.len()
        invariant
            i <= pieces.len(),
            values@.len() == i,
            forall|j: int| 0 <= j < i ==> as_i32(#[trigger] views(pieces@)[j]) == Some(values@[j]),
        decreases pieces.len() - i,
    {
        assert(views(pieces@)[i as int] == pieces@[i as int]@);
        match parse_i32(&pieces[i]) {
            Some(value) => {
                values.push(value);
            },
            None => {
                return None;
            },
        }
        i += 1;
    }
    proof {
        assert(values@ =~= all_i32(views(pieces@)).unwrap());
    }
    Some(values)
}

} // verus!
