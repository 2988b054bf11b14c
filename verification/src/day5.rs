//! The diagnostic program: one input value, and the last output is the answer.

use crate::intcode_computer::{parse_input, program, Computer, Fault, Machine, State, STEP_BUDGET};
use vstd::prelude::*;
use vstd::slice::slice_to_vec;

verus! {

/// The answer of a diagnostic run with the system identifier `id`: the last
/// output of the program, run from a fresh machine with `id` as its only
/// input, provided that the run ends in `Halted` and has produced output.
pub open spec fn diagnostic(code: Seq<i64>, id: i64) -> Option<i64> {
    let (end, result) = Machine::boot(code).supply(id).run(STEP_BUDGET as nat);
    if result == Ok::<State, Fault>(State::Halted) && end.output.len() > 0 {
        Some(end.output.last())
    } else {
        None
    }
}

/// Parses the program: decimal literals separated by commas.
pub fn generator_input(input: &str) -> (r: Option<Vec<i64>>)
    ensures
        match r {
            Some(code) => program(input@) == Some(code@),
            None => program(input@) is None,
        },
{
    parse_input(input)
}

/// Runs the diagnostic for the system identifier `id`.
fn run_diagnostic(input: &[i64], id: i64) -> (r: Option<i64>)
    ensures
        r == diagnostic(input@, id),
{
    let mut computer = Computer::new(slice_to_vec(input));
    computer.input(id);
    match computer.execute() {
        Ok(State::Halted) => {
            let output = computer.get_all_output();
            if output.len() > 0 {
                Some(output[output.len() - 1])
            } else {
                None
            }
        },
        _ => None,
    }
}

/// The diagnostic code for system 1.
pub fn part_one(input: &[i64]) -> (r: Option<i64>)
    ensures
        r == diagnostic(input@, 1),
{
    run_diagnostic(input, 1)
}

/// The diagnostic code for system 5.
pub fn part_two(input: &[i64]) -> (r: Option<i64>)
    ensures
        r == diagnostic(input@, 5),
{
    run_diagnostic(input, 5)
}

} // verus!
