//! A first machine with two instructions, and the search for the input pair
//! that makes it produce a given value.

use crate::arith::{lemma_quotient_and_remainder, quotient, remainder, truncated_quotient};
use crate::text::{all_i32, chars, parse_all_i32, split, split_at};
use vstd::prelude::*;
use vstd::slice::slice_to_vec;

verus! {

/// The mathematical model of a [`Program`].
pub struct ProgramState {
    /// The cells, which hold code and data alike.
    pub data: Seq<i32>,
    /// The address of the next instruction.
    pub pointer: int,
}

impl ProgramState {
    /// Whether the pointer designates an instruction that can be executed: the
    /// opcode is 1 or 2, its three operand cells exist, and each of them holds
    /// the address of a cell.
    pub open spec fn can_go(self) -> bool {
        &&& 0 <= self.pointer
        &&& self.pointer + 3 < self.data.len()
        &&& (self.data[self.pointer] == 1 || self.data[self.pointer] == 2)
        &&& 0 <= self.data[self.pointer + 1] < self.data.len()
        &&& 0 <= self.data[self.pointer + 2] < self.data.len()
        &&& 0 <= self.data[self.pointer + 3] < self.data.len()
    }

    /// The state after the instruction at the pointer: the sum (opcode 1) or
    /// the product (opcode 2) of the cells that the first two operands
    /// designate is stored in the cell that the third designates, and the
    /// pointer moves on by four. Sums and products wrap around.
    pub open spec fn go(self) -> ProgramState {
        let x = self.data[self.data[self.pointer + 1] as int];
        let y = self.data[self.data[self.pointer + 2] as int];
        let value = if self.data[self.pointer] == 1 {
            x.wrapping_add(y)
        } else {
            x.wrapping_mul(y)
        };
        ProgramState {
            data: self.data.update(self.data[self.pointer + 3] as int, value),
            pointer: self.pointer + 4,
        }
    }

    /// The state in which the program stops: the first one reached in which
    /// no instruction can be executed.
    pub open spec fn run(self) -> ProgramState
        decreases self.data.len() - self.pointer,
    {
        if self.can_go() {
            self.go().run()
        } else {
            self
        }
    }

    /// The content of the first cell once the program has run with `verb` in
    /// its second and `noun` in its third cell.
    pub open spec fn solve(self, verb: i32, noun: i32) -> i32 {
        (ProgramState { data: self.data.update(1, verb).update(2, noun), ..self }).run().data[0]
    }
}

/// A program that has run cannot go on, and has as many cells as before.
pub proof fn lemma_run_stops(s: ProgramState)
    ensures
        !s.run().can_go(),
        s.run().data.len() == s.data.len(),
        s.run().pointer >= s.pointer,
    decreases s.data.len() - s.pointer,
{
    if s.can_go() {
        lemma_run_stops(s.go());
    }
}

/// The answer to the second part, from the results `r1` of the pair (12, 2)
/// and `r2` of the pair (13, 2).
///
/// The result is taken to be `c1 + c2 * verb + noun`. The two runs give `c2`
/// as `r2 - r1` and `c1` as `13 * r1 - 12 * r2 - 2`. The verb and the noun
/// then are the quotient and the remainder of `19690720 - c1` by `c2`, and
/// the answer is a hundred times the verb, plus the noun.
pub open spec fn pair_code(r1: int, r2: int) -> int {
    let c1 = 13 * r1 - 12 * r2 - 2;
    let c2 = r2 - r1;
    let val = 19690720 - c1;
    let verb = quotient(val, c2);
    let noun = val - c2 * verb;
    100 * verb + noun
}

/// A program with its instruction pointer.
#[derive(Clone, Debug)]
pub struct Program {
    /// Data of the program (parsed input)
    data: Vec<i32>,
    /// Code pointer
    pointer: usize,
}

impl View for Program {
    type V = ProgramState;

    closed spec fn view(&self) -> ProgramState {
        ProgramState { data: self.data@, pointer: self.pointer as int }
    }
}

/// Parses the program: decimal literals separated by commas.
pub fn generator_input(input: &str) -> (r: Option<Vec<i32>>)
    ensures
        match r {
            Some(data) => all_i32(split(input@, ',')) == Some(data@),
            None => all_i32(split(input@, ',')) is None,
        },
{
    let text = chars(input);
    let pieces = split_at(&text, ',');
    parse_all_i32(&pieces)
}

impl Program {
    /// A program that is about to run from its first cell.
    pub fn new(data: Vec<i32>) -> (program: Program)
        ensures
            program@ == (ProgramState { data: data@, pointer: 0 }),
    {
        Program { data, pointer: 0 }
    }

    /// The address of the next instruction.
    pub fn pointer(&self) -> (p: usize)
        ensures
            p == self@.pointer,
    {
        self.pointer
    }

    /// The cells as they stand.
    pub fn data(&self) -> (cells: &Vec<i32>)
        ensures
            cells@ == self@.data,
    {
        &self.data
    }

    /// The index that a cell holds, if it holds one.
    fn index_at(&self, at: usize) -> (r: Option<usize>)
        requires
            at < self@.data.len(),
        ensures
            r == (if 0 <= self@.data[at as int] < self@.data.len() {
                Some(self@.data[at as int] as usize)
            } else {
                None
            }),
    {
        let cell: i32 = self.data[at];
        if cell >= 0 && (cell as u64) < (self.data.len() as u64) {
            Some(cell as usize)
        } else {
            None
        }
    }

    /// Solves the program for given verb and noun: puts them in the second
    /// and third cell, runs the program until it stops and returns the first
    /// cell. `None`, and nothing done, if the program has fewer than three
    /// cells.
    pub fn solve_for(&mut self, verb: i32, noun: i32) -> (r: Option<i32>)
        ensures
            old(self)@.data.len() >= 3 ==> r == Some(old(self)@.solve(verb, noun)) && final(self)@
                == (ProgramState {
                data: old(self)@.data.update(1, verb).update(2, noun),
                ..old(self)@
            }).run(),
            old(self)@.data.len() < 3 ==> r is None && final(self)@ == old(self)@,
    {
        if self.data.len() < 3 {
            return None;
        }
        self.data.set(1, verb);
        self.data.set(2, noun);
        let ghost start = self@;
        while self.next()
            invariant
                self@.run() == start.run(),
                self.data@.len() == start.data.len(),
            ensures
                self@ == start.run(),
            decreases self.data@.len() - self.pointer,
        {
        }
        Some(self.data[0])
    }

    /// Continues the execution of the program by one instruction. Returns
    /// true if one was executed, and false, with nothing done, if the program
    /// has stopped.
    pub fn next(&mut self) -> (went: bool)
        ensures
            went == old(self)@.can_go(),
            went ==> final(self)@ == old(self)@.go(),
            !went ==> final(self)@ == old(self)@,
    {
        if self.pointer >= self.data.len() || self.data.len() - self.pointer <= 3 {
            return false;
        }
        let opcode: i32 = self.data[self.pointer];
        if opcode != 1 && opcode != 2 {
            return false;
        }
        let idx_a: usize = match self.index_at(self.pointer + 1) {
            Some(idx) => idx,
            None => {
                return false;
            },
        };
        let idx_b: usize = match self.index_at(self.pointer + 2) {
            Some(idx) => idx,
            None => {
                return false;
            },
        };
        let idx_c: usize = match self.index_at(self.pointer + 3) {
            Some(idx) => idx,
            None => {
                return false;
            },
        };
        let val: i32 = if opcode == 1 {
            self.data[idx_a].wrapping_add(self.data[idx_b])
        } else {
            self.data[idx_a].wrapping_mul(self.data[idx_b])
        };
        self.data.set(idx_c, val);
        self.pointer = self.pointer + 4;
        true
    }
}

/// Solves part one by solving for verb = 12 and noun = 2.
pub fn part_one(input: &[i32]) -> (r: Option<i32>)
    ensures
        r == (if input@.len() >= 3 {
            Some((ProgramState { data: input@, pointer: 0 }).solve(12, 2))
        } else {
            None
        }),
{
    let mut program = Program::new(slice_to_vec(input));
    program.solve_for(12, 2)
}

/// Solves part two from the results of two runs, by [`pair_code`]. `None` if
/// the program has fewer than three cells, if both runs give the same result,
/// or if the answer is more than the result can hold.
pub fn part_two(input: &[i32]) -> (r: Option<i32>)
    ensures
        r == ({
            let start = ProgramState { data: input@, pointer: 0 };
            let code = pair_code(start.solve(12, 2) as int, start.solve(13, 2) as int);
            if input@.len() >= 3 && start.solve(12, 2) != start.solve(13, 2) && i32::MIN <= code
                <= i32::MAX {
                Some(code as i32)
            } else {
                None
            }
        }),
{
    let mut program = Program::new(slice_to_vec(input));
    let mut program_copy = Program::new(slice_to_vec(input));
    let r1: i64 = match program.solve_for(12, 2) {
        Some(r1) => r1 as i64,
        None => {
            return None;
        },
    };
    let r2: i64 = match program_copy.solve_for(13, 2) {
        Some(r2) => r2 as i64,
        None => {
            return None;
        },
    };
    let c1: i64 = 13 * r1 - 12 * r2 - 2;
    let c2: i64 = r2 - r1;
    if c2 == 0 {
        return None;
    }
    let val: i64 = 19690720 - c1;
    proof {
        lemma_quotient_and_remainder(val as int, c2 as int);
    }
    let v: i64 = match truncated_quotient(val, c2) {
        Some(v) => v,
        None => {
            return None;
        },
    };
    assert(-0x10_0000_0000 <= c2 * v <= 0x10_0000_0000) by (nonlinear_arith)
        requires
            val == c2 * v + remainder(val as int, c2 as int),
            -0x10_0000_0000 <= val <= 0x10_0000_0000,
            -0x1_0000_0000 <= remainder(val as int, c2 as int) <= 0x1_0000_0000,
    ;
    let n: i64 = val - c2 * v;
    let code: i64 = 100 * v + n;
    if -0x8000_0000 <= code && code <= 0x7fff_ffff {
        Some(code as i32)
    } else {
        None
    }
}

} // verus!
