//! A signal of digits that is transformed in phases.

use crate::text::{chars, is_digit};
use vstd::prelude::*;

verus! {

/// The number of phases.
pub const PHASES: usize = 100;

/// The number of times that the signal is repeated in the second part.
pub const REPEATS: usize = 10000;

/// The digits of the text as numbers, if the text consists of digits.
pub open spec fn signal(s: Seq<char>) -> Option<Seq<i32>> {
    if forall|i: int| 0 <= i < s.len() ==> is_digit(#[trigger] s[i]) {
        Some(Seq::new(s.len(), |i: int| (s[i] as int - '0' as int) as i32))
    } else {
        None
    }
}

/// The factor of element `j` of the input in element `idx` of the output: the
/// pattern 0, 1, 0, -1, with each value repeated `idx + 1` times and the very
/// first value left out.
pub open spec fn pattern_at(idx: int, j: int) -> int {
    let at = ((j + 1) / (idx + 1)) % 4;
    if at == 1 {
        1
    } else if at == 3 {
        -1
    } else {
        0
    }
}

/// The sum of the first `n` elements of the input, each times its factor for
/// element `idx` of the output.
pub open spec fn dot(input: Seq<i32>, idx: int, n: int) -> int
    decreases n,
{
    if n <= 0 {
        0
    } else {
        dot(input, idx, n - 1) + input[n - 1] * pattern_at(idx, n - 1)
    }
}

/// The last digit of a number.
pub open spec fn last_digit(a: int) -> i32 {
    ((if a < 0 {
        -a
    } else {
        a
    }) % 10) as i32
}

/// The signal after one phase.
pub open spec fn phase(input: Seq<i32>) -> Seq<i32> {
    Seq::new(input.len(), |idx: int| last_digit(dot(input, idx, input.len() as int)))
}

/// The signal after `n` phases.
pub open spec fn phases(input: Seq<i32>, n: nat) -> Seq<i32>
    decreases n,
{
    if n == 0 {
        input
    } else {
        phase(phases(input, (n - 1) as nat))
    }
}

/// The first `n` elements of a signal of digits as text.
pub open spec fn digits_text(s: Seq<i32>, n: int) -> Seq<char> {
    Seq::new(n as nat, |i: int| ('0' as int + s[i]) as char)
}

/// The sum of the elements from `from` on.
pub open spec fn tail_sum(s: Seq<i32>, from: int) -> int
    decreases s.len() - from,
{
    if from >= s.len() {
        0
    } else {
        s[from] + tail_sum(s, from + 1)
    }
}

/// A phase as it works out far behind the middle of a signal, where the
/// factors of all the elements from an element on are 1 and those before it
/// are 0: each element becomes the last digit of the sum of the elements
/// from it on.
pub open spec fn tail_phase(s: Seq<i32>) -> Seq<i32> {
    Seq::new(s.len(), |i: int| last_digit(tail_sum(s, i)))
}

/// The tail of a signal after `n` such phases.
pub open spec fn tail_phases(s: Seq<i32>, n: nat) -> Seq<i32>
    decreases n,
{
    if n == 0 {
        s
    } else {
        tail_phase(tail_phases(s, (n - 1) as nat))
    }
}

/// The number that the first `n` elements of a signal of digits denote.
pub open spec fn offset_of(input: Seq<i32>, n: int) -> int
    decreases n,
{
    if n <= 0 {
        0
    } else {
        offset_of(input, n - 1) * 10 + input[n - 1]
    }
}

/// Whether all the elements are digits.
pub open spec fn all_digits(s: Seq<i32>) -> bool {
    forall|i: int| 0 <= i < s.len() ==> 0 <= #[trigger] s[i] <= 9
}

/// The signal repeated 10000 times, from the element `offset` on.
pub open spec fn repeated_tail(input: Seq<i32>, offset: int) -> Seq<i32> {
    Seq::new(
        (input.len() * REPEATS - offset) as nat,
        |i: int| input[(offset + i) % (input.len() as int)],
    )
}

/// What [`part_two`] returns: of the signal repeated 10000 times, the eight
/// elements behind the offset that its first seven digits denote, after 100
/// phases of the kind that the back half of a signal goes through, as text.
/// Where the offset lies in the back half of the repeated signal, these are
/// the phases of the whole of it, by [`lemma_phases_in_the_back`].
///
/// There is no result if the signal has fewer than seven elements, if one of
/// them is no digit, or if fewer than eight elements lie behind the offset.
pub open spec fn message(input: Seq<i32>) -> Option<Seq<char>> {
    let offset = offset_of(input, 7);
    if input.len() >= 7 && all_digits(input) && input.len() * REPEATS <= usize::MAX && offset + 8
        <= input.len() * REPEATS {
        Some(digits_text(tail_phases(repeated_tail(input, offset), PHASES as nat), 8))
    } else {
        None
    }
}

/// Reads the signal: one digit for each element.
pub fn input_generator(input: &str) -> (r: Option<Vec<i32>>)
    ensures
        match r {
            Some(all) => signal(input@) == Some(all@),
            None => signal(input@) is None,
        },
{
    let text = chars(input);
    let mut all: Vec<i32> = Vec::new();
    let mut i: usize = 0;
    while i < text.len()
        invariant
            i <= text.len(),
            text@ == input@,
            all@.len() == i,
            forall|j: int| 0 <= j < i ==> is_digit(#[trigger] text@[j]),
            forall|j: int| 0 <= j < i ==> #[trigger] all@[j] == (text@[j] as int - '0' as int) as i32,
        decreases text.len() - i,
    {
        let c: char = text[i];
        if c < '0' || c > '9' {
            return None;
        }
        all.push((c as u32 - '0' as u32) as i32);
        i += 1;
    }
    proof {
        assert(all@ =~= signal(input@).unwrap());
    }
    Some(all)
}

/// The last digit of a number.
fn digit_of(a: i128) -> (d: i32)
    requires
        a > i128::MIN,
    ensures
        d == last_digit(a as int),
        0 <= d <= 9,
{
    let m: i128 = if a < 0 {
        -a
    } else {
        a
    };
    (m % 10) as i32
}

/// Transforms the signal by one phase.
pub fn fft_phase(input: Vec<i32>) -> (output: Vec<i32>)
    ensures
        output@ == phase(input@),
{
    let mut output: Vec<i32> = Vec::new();
    let mut idx: usize = 0;
    while idx < input.len()
        invariant
            idx <= input.len(),
            output@.len() == idx,
            forall|k: int|
                0 <= k < idx ==> #[trigger] output@[k] == last_digit(
                    dot(input@, k, input@.len() as int),
                ),
        decreases input.len() - idx,
    {
        let mut sum: i128 = 0;
        let mut j: usize = 0;
        while j < input.len()
            invariant
                idx < input.len(),
                j <= input.len(),
                sum == dot(input@, idx as int, j as int),
                -0x8000_0000 * j <= sum <= 0x8000_0000 * j,
            decreases input.len() - j,
        {
            let at: usize = ((j as u128 + 1) / (idx as u128 + 1) % 4) as usize;
            let v: i128 = input[j] as i128;
            if at == 1 {
                sum = sum + v;
            } else if at == 3 {
                sum = sum - v;
            }
            j += 1;
        }
        output.push(digit_of(sum));
        idx += 1;
    }
    proof {
        assert(output@ =~= phase(input@));
    }
    output
}

/// In the back half of a signal the factors are 0 before the element and 1
/// from it on.
pub proof fn lemma_pattern_in_the_back(idx: int, j: int)
    requires
        0 <= idx,
        0 <= j <= 2 * idx,
    ensures
        pattern_at(idx, j) == if j < idx {
            0int
        } else {
            1int
        },
{
    if j < idx {
        assert((j + 1) / (idx + 1) == 0) by (nonlinear_arith)
            requires
                0 <= j < idx,
        ;
    } else {
        assert((j + 1) / (idx + 1) == 1) by (nonlinear_arith)
            requires
                0 <= idx <= j <= 2 * idx,
        ;
    }
}

/// In the back half of a signal, the sum that makes an element of the next
/// phase is the sum of the elements from it on.
pub proof fn lemma_dot_in_the_back(input: Seq<i32>, idx: int, n: int)
    requires
        0 <= idx,
        0 <= n <= input.len() <= 2 * idx + 1,
    ensures
        dot(input, idx, n) + tail_sum(input, if n < idx {
            idx
        } else {
            n
        }) == tail_sum(input, idx),
    decreases n,
{
    if n > 0 {
        lemma_dot_in_the_back(input, idx, n - 1);
        lemma_pattern_in_the_back(idx, n - 1);
    }
}

/// The sum of the elements from an element on does not change when elements
/// before it are left out.
pub proof fn lemma_tail_sum_skips(s: Seq<i32>, from: int, i: int)
    requires
        0 <= from <= s.len(),
        0 <= i,
    ensures
        tail_sum(s.skip(from), i) == tail_sum(s, from + i),
    decreases s.len() - from - i,
{
    if from + i < s.len() {
        lemma_tail_sum_skips(s, from, i + 1);
    }
}

/// In the back half of a signal a phase is a [`tail_phase`]: what comes
/// before the half plays no part, and neither do the factors.
pub proof fn lemma_phase_in_the_back(s: Seq<i32>, from: int)
    requires
        0 <= from <= s.len() <= 2 * from + 1,
    ensures
        phase(s).skip(from) == tail_phase(s.skip(from)),
{
    assert forall|i: int| 0 <= i < s.len() - from implies phase(s).skip(from)[i] == tail_phase(
        s.skip(from),
    )[i] by {
        lemma_dot_in_the_back(s, from + i, s.len() as int);
        lemma_tail_sum_skips(s, from, i);
    }
    assert(phase(s).skip(from) =~= tail_phase(s.skip(from)));
}

/// In the back half of a signal, phases are [`tail_phases`].
pub proof fn lemma_phases_in_the_back(s: Seq<i32>, from: int, n: nat)
    requires
        0 <= from <= s.len() <= 2 * from + 1,
    ensures
        phases(s, n).skip(from) == tail_phases(s.skip(from), n),
    decreases n,
{
    if n > 0 {
        lemma_phases_in_the_back(s, from, (n - 1) as nat);
        lemma_phases_keep_length(s, (n - 1) as nat);
        lemma_phase_in_the_back(phases(s, (n - 1) as nat), from);
    }
}

/// After a phase all the elements are digits.
pub proof fn lemma_phase_gives_digits(input: Seq<i32>, n: nat)
    requires
        n > 0,
    ensures
        all_digits(phases(input, n)),
        phases(input, n).len() == input.len(),
        all_digits(tail_phases(input, n)),
        tail_phases(input, n).len() == input.len(),
    decreases n,
{
    lemma_phases_keep_length(input, (n - 1) as nat);
}

/// Phases keep the length of the signal.
pub proof fn lemma_phases_keep_length(input: Seq<i32>, n: nat)
    ensures
        phases(input, n).len() == input.len(),
        tail_phases(input, n).len() == input.len(),
    decreases n,
{
    if n > 0 {
        lemma_phases_keep_length(input, (n - 1) as nat);
    }
}

/// The text of the first `n` elements of a signal of digits.
fn text_of(s: &Vec<i32>, n: usize) -> (text: String)
    requires
        n <= s.len(),
        all_digits(s@),
    ensures
        text@ == digits_text(s@, n as int),
{
    let mut text = String::new();
    let mut i: usize = 0;
    proof {
        reveal_strlit("0");
        reveal_strlit("1");
        reveal_strlit("2");
        reveal_strlit("3");
        reveal_strlit("4");
        reveal_strlit("5");
        reveal_strlit("6");
        reveal_strlit("7");
        reveal_strlit("8");
        reveal_strlit("9");
    }
    while i < n
        invariant
            i <= n <= s.len(),
            all_digits(s@),
            "0"@ == seq!['0'],
            "1"@ == seq!['1'],
            "2"@ == seq!['2'],
            "3"@ == seq!['3'],
            "4"@ == seq!['4'],
            "5"@ == seq!['5'],
            "6"@ == seq!['6'],
            "7"@ == seq!['7'],
            "8"@ == seq!['8'],
            "9"@ == seq!['9'],
            text@ == digits_text(s@, i as int),
        decreases n - i,
    {
        let ghost before = text@;
        let d: i32 = s[i];
        assert(0 <= s@[i as int] <= 9);
        if d == 0 {
            text.append("0");
        } else if d == 1 {
            text.append("1");
        } else if d == 2 {
            text.append("2");
        } else if d == 3 {
            text.append("3");
        } else if d == 4 {
            text.append("4");
        } else if d == 5 {
            text.append("5");
        } else if d == 6 {
            text.append("6");
        } else if d == 7 {
            text.append("7");
        } else if d == 8 {
            text.append("8");
        } else {
            text.append("9");
        }
        proof {
            assert(text@ =~= before.push(('0' as int + d) as char));
            assert(digits_text(s@, i + 1) =~= digits_text(s@, i as int).push(
                ('0' as int + d) as char,
            ));
        }
        i += 1;
    }
    text
}

/// The first eight elements of the signal after 100 phases, as text; all the
/// elements if there are fewer.
pub fn part_one(input: &[i32]) -> (r: String)
    ensures
        r@ == digits_text(
            phases(input@, PHASES as nat),
            if input@.len() < 8 {
                input@.len() as int
            } else {
                8
            },
        ),
{
    let mut state: Vec<i32> = vstd::slice::slice_to_vec(input);
    let mut n: usize = 0;
    while n < PHASES
        invariant
            n <= PHASES,
            state@ == phases(input@, n as nat),
        decreases PHASES - n,
    {
        state = fft_phase(state);
        n += 1;
    }
    proof {
        lemma_phase_gives_digits(input@, PHASES as nat);
    }
    let take: usize = if state.len() < 8 {
        state.len()
    } else {
        8
    };
    text_of(&state, take)
}

/// Transforms the tail of a signal by one phase, in place.
fn tail_phase_in_place(tail: &mut Vec<i32>)
    requires
        all_digits(old(tail)@),
    ensures
        final(tail)@ == tail_phase(old(tail)@),
        all_digits(final(tail)@),
{
    let ghost before = tail@;
    let mut state: i128 = 0;
    let mut x: usize = tail.len();
    while x > 0
        invariant
            x <= tail.len(),
            tail@.len() == before.len(),
            all_digits(before),
            state == tail_sum(before, x as int),
            0 <= state <= 9 * (before.len() - x),
            forall|i: int| 0 <= i < x ==> #[trigger] tail@[i] == before[i],
            forall|i: int| x <= i < before.len() ==> #[trigger] tail@[i] == tail_phase(before)[i],
        decreases x,
    {
        x -= 1;
        assert(0 <= before[x as int] <= 9);
        state = state + tail[x] as i128;
        tail.set(x, digit_of(state));
    }
    proof {
        assert(tail@ =~= tail_phase(before));
    }
}

/// The message in the signal.
pub fn part_two(input: &[i32]) -> (r: Option<String>)
    ensures
        match r {
            Some(text) => message(input@) == Some(text@),
            None => message(input@) is None,
        },
{
    let origin_len: usize = input.len();
    if origin_len < 7 {
        return None;
    }
    let mut i: usize = 0;
    while i < origin_len
        invariant
            i <= origin_len,
            origin_len == input@.len(),
            all_digits(input@.take(i as int)),
        decreases origin_len - i,
    {
        let d: i32 = input[i];
        if d < 0 || d > 9 {
            proof {
                if all_digits(input@) {
                    assert(0 <= input@[i as int] <= 9);
                }
            }
            return None;
        }
        proof {
            assert forall|j: int| 0 <= j < i + 1 implies 0 <= #[trigger] input@.take(i + 1)[j]
                <= 9 by {
                if j < i {
                    assert(input@.take(i as int)[j] == input@[j]);
                }
            }
        }
        i += 1;
    }
    proof {
        assert(input@.take(i as int) =~= input@);
        assert(0 <= input@[0] <= 9 && 0 <= input@[1] <= 9 && 0 <= input@[2] <= 9 && 0 <= input@[3]
            <= 9 && 0 <= input@[4] <= 9 && 0 <= input@[5] <= 9 && 0 <= input@[6] <= 9);
        reveal_with_fuel(offset_of, 8);
    }
    let offset: usize = (input[0] as usize) * 1_000_000 + (input[1] as usize) * 100_000 + (
    input[2] as usize) * 10_000 + (input[3] as usize) * 1_000 + (input[4] as usize) * 100 + (
    input[5] as usize) * 10 + (input[6] as usize);
    assert(offset == offset_of(input@, 7));
    let input_len: usize = match origin_len.checked_mul(REPEATS) {
        Some(len) => len,
        None => {
            return None;
        },
    };
    if input_len - 8 < offset {
        return None;
    }
    let mut tail: Vec<i32> = Vec::new();
    let mut at: usize = offset % origin_len;
    let mut n: usize = 0;
    while n < input_len - offset
        invariant
            n <= input_len - offset,
            origin_len == input@.len(),
            origin_len > 0,
            at < origin_len,
            at == (offset + n) % (origin_len as int),
            all_digits(input@),
            tail@.len() == n,
            forall|k: int|
                0 <= k < n ==> #[trigger] tail@[k] == input@[(offset + k) % (origin_len as int)],
        decreases input_len - offset - n,
    {
        tail.push(input[at]);
        proof {
            assert((offset + n + 1) % (origin_len as int) == if at + 1 == origin_len {
                0
            } else {
                at + 1
            }) by (nonlinear_arith)
                requires
                    at == (offset + n) % (origin_len as int),
                    origin_len > 0,
                    at < origin_len,
            ;
        }
        at = if at + 1 == origin_len {
            0
        } else {
            at + 1
        };
        n += 1;
    }
    proof {
        assert(tail@ =~= repeated_tail(input@, offset as int));
        assert forall|k: int| 0 <= k < tail@.len() implies 0 <= #[trigger] tail@[k] <= 9 by {
            assert(0 <= input@[(offset + k) % (origin_len as int)] <= 9);
        }
    }
    let mut p: usize = 0;
    while p < PHASES
        invariant
            p <= PHASES,
            all_digits(tail@),
            tail@.len() == input_len - offset,
            tail@ == tail_phases(repeated_tail(input@, offset as int), p as nat),
        decreases PHASES - p,
    {
        tail_phase_in_place(&mut tail);
        p += 1;
    }
    Some(text_of(&tail, 8))
}

} // verus!
