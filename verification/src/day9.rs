//! The sensor boost program: one input value, and the first output is the
//! answer. The program needs room beyond its own length.

use crate::intcode_computer::{parse_input, program, Computer, Fault, Machine, State, STEP_BUDGET};
use vstd::prelude::*;
use vstd::slice::slice_to_vec;

verus! {

/// The number of cells that the machine is given.
pub const MEMORY: usize = 1500;

/// The answer of a run in the mode `mode`: the first output of the program,
/// run in a memory of at least 1500 cells with `mode` as its only input,
/// provided that the run ends in `Halted` and has produced output.
pub open spec fn boost(code: Seq<i64>, mode: i64) -> Option<i64> {
    let start = Machine::boot(code).grown(MEMORY as nat);
    let (end, result) = start.supply(mode).run(STEP_BUDGET as nat);
    if result == Ok::<State, Fault>(State::Halted) && end.output.len() > 0 {
        Some(end.output[0])
    } else {
        None
    }
}

/// Parses the program: decimal literals separated by commas.
pub fn input_generator(input: &str) -> (r: Option<Vec<i64>>)
    ensures
        match r {
            Some(code) => program(input@) == Some(code@),
            None => program(input@) is None,
        },
{
    parse_input(input)
}

/// Runs the program in the mode `mode`.
fn run_boost(input: &[i64], mode: i64) -> (r: Option<i64>)
    ensures
        r == boost(input@, mode),
{
    let mut computer = Computer::new(slice_to_vec(input)).set_available_memory(MEMORY);
    computer.input(mode);
    match computer.execute() {
        Ok(State::Halted) => computer.get_next_output(),
        _ => None,
    }
}

/// The output of the program in test mode.
pub fn part_one(input: &[i64]) -> (r: Option<i64>)
    ensures
        r == boost(input@, 1),
{
    run_boost(input, 1)
}

/// The output of the program in boost mode.
pub fn part_two(input: &[i64]) -> (r: Option<i64>)
    ensures
        r == boost(input@, 2),
{
    run_boost(input, 2)
}

} // verus!
