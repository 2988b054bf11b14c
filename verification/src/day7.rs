//! Amplifier chains: five machines run the same program, each with a phase
//! setting of its own, and hand a signal from one to the next.

use crate::intcode_computer::{parse_input, program, Computer, Fault, Machine, State, STEP_BUDGET};
use itertools::Itertools;
use vstd::prelude::*;
use vstd::slice::slice_to_vec;

verus! {

/// The number of times that [`solve_sequence_feedback`] hands the signal on
/// before it gives up.
pub const ROUND_BUDGET: u64 = 0xffff_ffff_ffff_ffff;

/// The views of a sequence of vectors.
pub open spec fn rows(sequences: Seq<Vec<i64>>) -> Seq<Seq<i64>> {
    sequences.map_values(|sequence: Vec<i64>| sequence@)
}

/// The models of a sequence of machines.
pub open spec fn models(amps: Seq<Computer>) -> Seq<Machine> {
    amps.map_values(|amp: Computer| amp@)
}

/// What one amplifier makes of a signal: the first output of the program, run
/// from a fresh machine with the phase setting and the signal as its input,
/// provided that the run ends in `Halted` and has produced output.
pub open spec fn amplify(code: Seq<i64>, phase: i64, signal: i64) -> Option<i64> {
    let (end, result) = Machine::boot(code).supply(phase).supply(signal).run(STEP_BUDGET as nat);
    if result == Ok::<State, Fault>(State::Halted) && end.output.len() > 0 {
        Some(end.output[0])
    } else {
        None
    }
}

/// The signal behind the first `n` amplifiers of a chain that is fed with 0.
pub open spec fn chain(code: Seq<i64>, sequence: Seq<i64>, n: nat) -> Option<i64>
    decreases n,
{
    if n == 0 {
        Some(0)
    } else {
        match chain(code, sequence, (n - 1) as nat) {
            Some(signal) => amplify(code, sequence[n - 1], signal),
            None => None,
        }
    }
}

/// An amplifier of the feedback loop before its first turn: it yields on
/// output and on missing input, and its phase setting waits in its input.
pub open spec fn station(code: Seq<i64>, phase: i64) -> Machine {
    (Machine { halt_on_output: true, halt_on_missing_input: true, ..Machine::boot(code) }).supply(
        phase,
    )
}

/// The last signal of a feedback loop of five amplifiers, from the turn of
/// amplifier `idx` on. `last` is the latest signal, if there has been one; the
/// loop starts with the signal 0.
///
/// In its turn an amplifier is given the signal and run until it yields.
/// If it then has output, its oldest output is the new signal and the turn
/// passes to the next amplifier; if it has none, the loop ends with the
/// latest signal. There is no result if a machine runs into a fault, or if
/// the loop is still going after `fuel` turns.
pub open spec fn feedback(amps: Seq<Machine>, idx: int, last: Option<i64>, fuel: nat) -> Option<
    i64,
>
    decreases fuel,
{
    if fuel == 0 {
        None
    } else {
        let signal = match last {
            Some(signal) => signal,
            None => 0,
        };
        let (amp, result) = amps[idx].supply(signal).run(STEP_BUDGET as nat);
        if result is Err {
            None
        } else if amp.output.len() == 0 {
            last
        } else {
            feedback(
                amps.update(idx, Machine { output: amp.output.drop_first(), ..amp }),
                (idx + 1) % 5,
                Some(amp.output[0]),
                (fuel - 1) as nat,
            )
        }
    }
}

/// The five amplifiers of a feedback loop before the first turn.
pub open spec fn stations(code: Seq<i64>, sequence: Seq<i64>) -> Seq<Machine> {
    Seq::new(5, |i: int| station(code, sequence[i]))
}

/// The largest of the results, if there is at least one and none is missing.
pub open spec fn best(results: Seq<Option<i64>>) -> Option<i64>
    decreases results.len(),
{
    if results.len() == 0 {
        None
    } else if results.len() == 1 {
        results[0]
    } else {
        match (best(results.drop_last()), results.last()) {
            (Some(a), Some(b)) => Some(
                if a >= b {
                    a
                } else {
                    b
                },
            ),
            _ => None,
        }
    }
}

/// What [`solve_sequence`] returns for a program and a sequence.
pub open spec fn sequence_signal(code: Seq<i64>, sequence: Seq<i64>) -> Option<i64> {
    if sequence.len() >= 5 {
        chain(code, sequence, 5)
    } else {
        None
    }
}

/// What [`solve_sequence_feedback`] returns for a program and a sequence.
pub open spec fn feedback_signal(code: Seq<i64>, sequence: Seq<i64>) -> Option<i64> {
    if sequence.len() >= 5 {
        feedback(stations(code, sequence), 0, None, ROUND_BUDGET as nat)
    } else {
        None
    }
}

/// The sequences that `Itertools::permutations` yields, in its order, for an
/// iterator over `items` and the length `k`.
pub uninterp spec fn permutations_of(items: Seq<i64>, k: nat) -> Seq<Seq<i64>>;

/// Calls `Itertools::permutations` on the items, with the length `k`, and
/// collects what it yields. The contract only names the result: it is taken
/// to depend on the items and on `k` alone.
#[verifier::external_body]
fn permutations(items: &Vec<i64>, k: usize) -> (all: Vec<Vec<i64>>)
    ensures
        rows(all@) == permutations_of(items@, k as nat),
{
    items.iter().copied().permutations(k).collect()
}

/// Parses the program: decimal literals separated by commas.
pub fn input_generator(input: &str) -> (r: Option<Vec<i64>>)
    ensures
        match r {
            Some(code) => program(input@) == Some(code@),
            None => program(input@) is None,
        },
{
    parse_input(input)
}

/// Sends the signal 0 through a chain of five amplifiers, which have the
/// first five elements of `sequence` as their phase settings. `None` if the
/// sequence is shorter, or if an amplifier fails to halt with an output.
pub fn solve_sequence(input: &[i64], sequence: Vec<i64>) -> (r: Option<i64>)
    ensures
        r == sequence_signal(input@, sequence@),
{
    if sequence.len() < 5 {
        return None;
    }
    let mut signal: i64 = 0;
    let mut idx: usize = 0;
    while idx < 5
        invariant
            idx <= 5 <= sequence.len(),
            chain(input@, sequence@, idx as nat) == Some(signal),
        decreases 5 - idx,
    {
        let mut amp = Computer::new(slice_to_vec(input));
        amp.input(sequence[idx]);
        amp.input(signal);
        match amp.execute() {
            Ok(State::Halted) => {},
            _ => {
                proof {
                    lemma_chain_fails(input@, sequence@, idx as nat + 1, 5);
                }
                return None;
            },
        }
        match amp.get_next_output() {
            Some(out) => {
                signal = out;
            },
            None => {
                proof {
                    lemma_chain_fails(input@, sequence@, idx as nat + 1, 5);
                }
                return None;
            },
        }
        idx += 1;
    }
    Some(signal)
}

/// A chain that has failed behind `n` amplifiers has failed behind more.
pub proof fn lemma_chain_fails(code: Seq<i64>, sequence: Seq<i64>, n: nat, m: nat)
    requires
        n <= m,
        chain(code, sequence, n) is None,
    ensures
        chain(code, sequence, m) is None,
    decreases m,
{
    if n < m {
        lemma_chain_fails(code, sequence, n, (m - 1) as nat);
    }
}

/// Runs a feedback loop of five amplifiers, which have the first five
/// elements of `sequence` as their phase settings, and returns its last
/// signal. `None` if the sequence is shorter, if no amplifier ever produces a
/// signal, if a machine runs into a fault, or if the loop is still going
/// after [`ROUND_BUDGET`] turns.
pub fn solve_sequence_feedback(input: &[i64], sequence: Vec<i64>) -> (r: Option<i64>)
    ensures
        r == feedback_signal(input@, sequence@),
{
    if sequence.len() < 5 {
        return None;
    }
    let mut amps: Vec<Computer> = Vec::new();
    let mut i: usize = 0;
    while i < 5
        invariant
            i <= 5 <= sequence.len(),
            amps@.len() == i,
            forall|j: int| 0 <= j < i ==> (#[trigger] amps@[j])@ == station(input@, sequence@[j]),
        decreases 5 - i,
    {
        let mut amp = Computer::new(slice_to_vec(input)).halt_on_output().halt_on_missing_input();
        amp.input(sequence[i]);
        amps.push(amp);
        i += 1;
    }
    assert(models(amps@) =~= stations(input@, sequence@));
    let mut last: Option<i64> = None;
    let mut idx: usize = 0;
    let mut fuel: u64 = ROUND_BUDGET;
    while fuel > 0
        invariant
            amps@.len() == 5,
            idx < 5,
            feedback(models(amps@), idx as int, last, fuel as nat) == feedback_signal(
                input@,
                sequence@,
            ),
        decreases fuel,
    {
        let ghost before = models(amps@);
        let signal: i64 = match last {
            Some(signal) => signal,
            None => 0,
        };
        amps[idx].input(signal);
        let result = amps[idx].execute();
        if result.is_err() {
            return None;
        }
        match amps[idx].get_next_output() {
            Some(out) => {
                last = Some(out);
            },
            None => {
                return last;
            },
        }
        proof {
            let (amp, _) = before[idx as int].supply(signal).run(STEP_BUDGET as nat);
            assert(models(amps@) =~= before.update(
                idx as int,
                Machine { output: amp.output.drop_first(), ..amp },
            ));
        }
        idx = (idx + 1) % 5;
        fuel = fuel - 1;
    }
    None
}

/// The largest signal that the chain gives for one of the sequences. `None`
/// if there is no sequence, or if the chain gives no signal for one of them.
pub fn best_sequence(input: &[i64], sequences: &Vec<Vec<i64>>) -> (r: Option<i64>)
    ensures
        r == best(rows(sequences@).map_values(|s: Seq<i64>| sequence_signal(input@, s))),
{
    let ghost results = rows(sequences@).map_values(|s: Seq<i64>| sequence_signal(input@, s));
    let mut acc: Option<i64> = None;
    let mut i: usize = 0;
    while i < sequences.len()
        invariant
            i <= sequences.len(),
            results == rows(sequences@).map_values(|s: Seq<i64>| sequence_signal(input@, s)),
            acc == best(results.take(i as int)),
        decreases sequences.len() - i,
    {
        let signal = solve_sequence(input, sequences[i].clone());
        proof {
            assert(results.take(i + 1).drop_last() =~= results.take(i as int));
            assert(results.take(i + 1).last() == signal);
        }
        acc = larger(i == 0, acc, signal);
        i += 1;
    }
    proof {
        assert(results.take(i as int) =~= results);
    }
    acc
}

/// The largest signal that the feedback loop gives for one of the sequences.
/// `None` if there is no sequence, or if the loop gives no signal for one of
/// them.
pub fn best_feedback_sequence(input: &[i64], sequences: &Vec<Vec<i64>>) -> (r: Option<i64>)
    ensures
        r == best(rows(sequences@).map_values(|s: Seq<i64>| feedback_signal(input@, s))),
{
    let ghost results = rows(sequences@).map_values(|s: Seq<i64>| feedback_signal(input@, s));
    let mut acc: Option<i64> = None;
    let mut i: usize = 0;
    while i < sequences.len()
        invariant
            i <= sequences.len(),
            results == rows(sequences@).map_values(|s: Seq<i64>| feedback_signal(input@, s)),
            acc == best(results.take(i as int)),
        decreases sequences.len() - i,
    {
        let signal = solve_sequence_feedback(input, sequences[i].clone());
        proof {
            assert(results.take(i + 1).drop_last() =~= results.take(i as int));
            assert(results.take(i + 1).last() == signal);
        }
        acc = larger(i == 0, acc, signal);
        i += 1;
    }
    proof {
        assert(results.take(i as int) =~= results);
    }
    acc
}

/// The best of the results so far and one more.
fn larger(first: bool, acc: Option<i64>, next: Option<i64>) -> (r: Option<i64>)
    ensures
        first ==> r == next,
        !first ==> r == match (acc, next) {
            (Some(a), Some(b)) => Some(
                if a >= b {
                    a
                } else {
                    b
                },
            ),
            _ => None::<i64>,
        },
{
    if first {
        next
    } else {
        match (acc, next) {
            (Some(a), Some(b)) => Some(
                if a >= b {
                    a
                } else {
                    b
                },
            ),
            _ => None,
        }
    }
}

/// The phase settings from `from` up to `from + 4`.
fn settings(from: i64) -> (items: Vec<i64>)
    requires
        from <= 0x7fff_ffff,
    ensures
        items@ == seq![from, (from + 1) as i64, (from + 2) as i64, (from + 3) as i64, (from + 4) as i64],
{
    let mut items: Vec<i64> = Vec::new();
    items.push(from);
    items.push(from + 1);
    items.push(from + 2);
    items.push(from + 3);
    items.push(from + 4);
    items
}

/// The largest signal that a chain can give, over the orders of the phase
/// settings 0 to 4.
pub fn part_one(input: &[i64]) -> (r: Option<i64>)
    ensures
        r == best(
            permutations_of(seq![0i64, 1i64, 2i64, 3i64, 4i64], 5).map_values(
                |s: Seq<i64>| sequence_signal(input@, s),
            ),
        ),
{
    let sequences = permutations(&settings(0), 5);
    best_sequence(input, &sequences)
}

/// The largest signal that a feedback loop can give, over the orders of the
/// phase settings 5 to 9.
pub fn part_two(input: &[i64]) -> (r: Option<i64>)
    ensures
        r == best(
            permutations_of(seq![5i64, 6i64, 7i64, 8i64, 9i64], 5).map_values(
                |s: Seq<i64>| feedback_signal(input@, s),
            ),
        ),
{
    let sequences = permutations(&settings(5), 5);
    best_feedback_sequence(input, &sequences)
}

} // verus!
