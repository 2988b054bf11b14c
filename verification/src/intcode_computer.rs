//! A small virtual machine that runs programs held in a flat array of integers.
//!
//! The machine is described twice. [`Machine`] is its mathematical model: a
//! plain record of sequences and integers, with [`Machine::step`] giving the
//! meaning of one instruction and [`Machine::run`] the meaning of running
//! until the machine yields. [`Computer`] is the executable machine; every
//! operation on it is proved to do to its model exactly what the model says.
//!
//! Arithmetic on cell values wraps around in two's complement. Address
//! arithmetic never wraps: an address that cannot be represented is a fault,
//! as is any address outside the memory. A fault leaves the machine untouched.

use crate::text::{all_i64, chars, parse_all_i64, split, split_at};
use std::collections::VecDeque;
use vstd::prelude::*;

verus! {

/// The program that a text encodes: its pieces between commas, each read as a
/// decimal literal. There is none if a piece is no such literal, or denotes a
/// number that does not fit in a cell.
pub open spec fn program(text: Seq<char>) -> Option<Seq<i64>> {
    all_i64(split(text, ','))
}

/// Reads a program from its text: decimal literals separated by commas.
pub fn parse_input(input: &str) -> (r: Option<Vec<i64>>)
    ensures
        match r {
            Some(code) => program(input@) == Some(code@),
            None => program(input@) is None,
        },
{
    let text = chars(input);
    let pieces = split_at(&text, ',');
    parse_all_i64(&pieces)
}

/// The ways in which the machine can refuse to go on.
#[derive(Debug, Clone, Copy, PartialEq, Eq, Structural)]
pub enum Fault {
    /// The cell at the instruction pointer does not encode an instruction:
    /// its opcode is not one the machine knows, or an operand it needs has a
    /// mode digit above 2. Carries the cell.
    UnknownOpcode(i64),
    /// A read or write outside the memory. Carries the offending address,
    /// clipped to the range of a cell.
    MemoryFault(i64),
    /// An input instruction found the input queue empty, and the machine was
    /// not configured to suspend in that case.
    MissingInput,
}

/// What the machine is doing after a step or a run.
#[derive(Debug, Clone, Copy, PartialEq, Eq, Structural)]
pub enum State {
    /// The last instruction completed; the next one can be executed.
    Running,
    /// An output was produced and the machine yields. The pointer is already
    /// past the output instruction.
    SuspendedOnOutput,
    /// An input instruction found no input and the machine yields. The pointer
    /// still designates that instruction.
    SuspendedOnMissingInput,
    /// The machine sits on a halt instruction.
    Halted,
}

/// An operand, tagged with the way it is to be resolved.
#[derive(Debug, Clone, Copy, PartialEq, Eq, Structural)]
pub enum Value {
    /// A literal.
    Immediate(i64),
    /// An absolute address.
    Position(i64),
    /// An offset from the relative base.
    Relative(i64),
}

/// Brings an integer into the range of a cell.
pub open spec fn clip(a: int) -> i64 {
    if a < i64::MIN {
        i64::MIN
    } else if a > i64::MAX {
        i64::MAX
    } else {
        a as i64
    }
}

/// Whether `addr` designates a cell of the memory. An address is itself the
/// content of a cell, so no cell lies beyond the range of one.
pub open spec fn addressable(memory: Seq<i64>, addr: int) -> bool {
    0 <= addr < memory.len() && addr <= i64::MAX
}

/// The cell at `addr`, or the fault that reading it raises.
pub open spec fn load(memory: Seq<i64>, addr: int) -> Result<i64, Fault> {
    if addressable(memory, addr) {
        Ok(memory[addr])
    } else {
        Err(Fault::MemoryFault(clip(addr)))
    }
}

impl Value {
    /// The operand for a raw cell and a mode digit: 0 is position, 1 is
    /// immediate, 2 is relative.
    pub open spec fn from_spec(val: i64, param: i64) -> Value {
        if param == 0 {
            Value::Position(val)
        } else if param == 1 {
            Value::Immediate(val)
        } else {
            Value::Relative(val)
        }
    }

    /// The address that the operand designates. For a literal this is the
    /// literal itself.
    pub open spec fn address(self, relative_base: i64) -> int {
        match self {
            Value::Immediate(x) => x as int,
            Value::Position(addr) => addr as int,
            Value::Relative(offset) => relative_base + offset,
        }
    }

    /// The value that the operand reads.
    pub open spec fn read(self, memory: Seq<i64>, relative_base: i64) -> Result<i64, Fault> {
        match self {
            Value::Immediate(x) => Ok(x),
            _ => load(memory, self.address(relative_base)),
        }
    }

    /// The cell that the operand designates as a destination.
    pub open spec fn target(self, memory: Seq<i64>, relative_base: i64) -> Result<i64, Fault> {
        let addr = self.address(relative_base);
        if addressable(memory, addr) {
            Ok(addr as i64)
        } else {
            Err(Fault::MemoryFault(clip(addr)))
        }
    }

    /// What [`Value::evaluate`] returns: in write mode the designated address,
    /// provided it is representable, and otherwise the value read.
    pub open spec fn evaluate_spec(
        self,
        memory: Seq<i64>,
        relative_base: i64,
        write_mode: bool,
    ) -> Result<i64, Fault> {
        if write_mode {
            let addr = self.address(relative_base);
            if i64::MIN <= addr <= i64::MAX {
                Ok(addr as i64)
            } else {
                Err(Fault::MemoryFault(clip(addr)))
            }
        } else {
            self.read(memory, relative_base)
        }
    }

    /// Builds the operand for a raw cell and its mode digit.
    pub fn from(val: i64, param: i64) -> (value: Value)
        requires
            0 <= param <= 2,
        ensures
            value == Value::from_spec(val, param),
    {
        if param == 0 {
            Value::Position(val)
        } else if param == 1 {
            Value::Immediate(val)
        } else {
            Value::Relative(val)
        }
    }

    /// Resolves the operand against a memory and a relative base.
    ///
    /// In read mode this is the literal, or the content of the designated
    /// cell. In write mode it is the designated address itself, never a value.
    pub fn evaluate(self, code: &Vec<i64>, relative_base: i64, write_mode: bool) -> (r: Result<
        i64,
        Fault,
    >)
        ensures
            r == self.evaluate_spec(code@, relative_base, write_mode),
    {
        match self {
            Value::Immediate(x) => {
                Ok(x)
            },
            Value::Position(addr) => {
                if write_mode {
                    Ok(addr)
                } else {
                    fetch(code, addr)
                }
            },
            Value::Relative(offset) => {
                match relative_base.checked_add(offset) {
                    Some(addr) => {
                        if write_mode {
                            Ok(addr)
                        } else {
                            fetch(code, addr)
                        }
                    },
                    None => {
                        if offset < 0 {
                            Err(Fault::MemoryFault(i64::MIN))
                        } else {
                            Err(Fault::MemoryFault(i64::MAX))
                        }
                    },
                }
            },
        }
    }
}

/// One decoded instruction with its operands.
#[derive(Debug, Clone, Copy, PartialEq, Eq, Structural)]
pub enum Instruction {
    /// Opcode 1: stores the sum of the first two operands at the third.
    Add(Value, Value, Value),
    /// Opcode 2: stores the product of the first two operands at the third.
    Mul(Value, Value, Value),
    /// Opcode 3: stores the next input value at the operand.
    Inp(Value),
    /// Opcode 4: appends the operand to the output.
    Out(Value),
    /// Opcode 5: jumps to the second operand if the first is not zero.
    JumpIfTrue(Value, Value),
    /// Opcode 6: jumps to the second operand if the first is zero.
    JumpIfFalse(Value, Value),
    /// Opcode 7: stores 1 at the third operand if the first is less than the
    /// second, and 0 otherwise.
    LessThan(Value, Value, Value),
    /// Opcode 8: stores 1 at the third operand if the first two are equal, and
    /// 0 otherwise.
    Equals(Value, Value, Value),
    /// Opcode 9: adds the operand to the relative base.
    SetRelativeBase(Value),
    /// Opcode 99: stops the machine.
    Halt,
}

/// The number of operands that an opcode takes, for the opcodes that exist.
pub open spec fn opcode_arity(opcode: int) -> Option<nat> {
    if opcode == 1 || opcode == 2 || opcode == 7 || opcode == 8 {
        Some(3)
    } else if opcode == 5 || opcode == 6 {
        Some(2)
    } else if opcode == 3 || opcode == 4 || opcode == 9 {
        Some(1)
    } else if opcode == 99 {
        Some(0)
    } else {
        None
    }
}

/// The mode digit of operand `k` (1, 2 or 3) in an instruction cell: the
/// hundreds, thousands and ten-thousands digit respectively.
pub open spec fn mode_digit(cell: i64, k: int) -> i64 {
    if k == 1 {
        (cell / 100 % 10) as i64
    } else if k == 2 {
        (cell / 1000 % 10) as i64
    } else {
        (cell / 10000 % 10) as i64
    }
}

/// Whether a cell encodes an instruction: it is not negative, its last two
/// digits are an opcode, and each operand of that opcode has a mode digit of
/// 0, 1 or 2. Digits that belong to no operand are not looked at.
pub open spec fn encodes_instruction(cell: i64) -> bool {
    &&& cell >= 0
    &&& opcode_arity((cell % 100) as int) matches Some(n)
    &&& (n >= 1 ==> mode_digit(cell, 1) <= 2)
    &&& (n >= 2 ==> mode_digit(cell, 2) <= 2)
    &&& (n >= 3 ==> mode_digit(cell, 3) <= 2)
}

/// Operand `k` of the instruction at `pointer`: the cell `k` places after the
/// instruction cell, tagged by its mode digit.
pub open spec fn operand(memory: Seq<i64>, pointer: int, k: int) -> Value {
    Value::from_spec(memory[pointer + k], mode_digit(memory[pointer], k))
}

/// The instruction at `pointer`, or the fault that decoding it raises.
///
/// The instruction cell must be addressable and encode an instruction, and
/// all the operand cells must be addressable; if one of them is missing, the
/// fault carries the address just past the memory.
pub open spec fn decode(memory: Seq<i64>, pointer: int) -> Result<Instruction, Fault> {
    if !addressable(memory, pointer) {
        Err(Fault::MemoryFault(clip(pointer)))
    } else if !encodes_instruction(memory[pointer]) {
        Err(Fault::UnknownOpcode(memory[pointer]))
    } else if !addressable(memory, pointer + opcode_arity((memory[pointer] % 100) as int).unwrap()) {
        Err(Fault::MemoryFault(clip(memory.len() as int)))
    } else {
        let opcode = memory[pointer] % 100;
        let a = operand(memory, pointer, 1);
        let b = operand(memory, pointer, 2);
        let c = operand(memory, pointer, 3);
        Ok(
            if opcode == 1 {
                Instruction::Add(a, b, c)
            } else if opcode == 2 {
                Instruction::Mul(a, b, c)
            } else if opcode == 3 {
                Instruction::Inp(a)
            } else if opcode == 4 {
                Instruction::Out(a)
            } else if opcode == 5 {
                Instruction::JumpIfTrue(a, b)
            } else if opcode == 6 {
                Instruction::JumpIfFalse(a, b)
            } else if opcode == 7 {
                Instruction::LessThan(a, b, c)
            } else if opcode == 8 {
                Instruction::Equals(a, b, c)
            } else if opcode == 9 {
                Instruction::SetRelativeBase(a)
            } else {
                Instruction::Halt
            },
        )
    }
}

impl Instruction {
    /// The number of operands that the instruction carries.
    pub open spec fn arity(self) -> nat {
        match self {
            Instruction::Add(_, _, _) => 3,
            Instruction::Mul(_, _, _) => 3,
            Instruction::Inp(_) => 1,
            Instruction::Out(_) => 1,
            Instruction::JumpIfTrue(_, _) => 2,
            Instruction::JumpIfFalse(_, _) => 2,
            Instruction::LessThan(_, _, _) => 3,
            Instruction::Equals(_, _, _) => 3,
            Instruction::SetRelativeBase(_) => 1,
            Instruction::Halt => 0,
        }
    }

    /// Decodes the instruction at `pointer`.
    pub fn parse_instr(code: &Vec<i64>, pointer: usize) -> (r: Result<Instruction, Fault>)
        ensures
            r == decode(code@, pointer as int),
            r matches Ok(instr) ==> pointer + instr.arity() < code.len(),
    {
        if pointer >= code.len() || (pointer as u64) > 0x7fff_ffff_ffff_ffffu64 {
            return Err(Fault::MemoryFault(clip_index(pointer)));
        }
        let cell: i64 = code[pointer];
        if cell < 0 {
            return Err(Fault::UnknownOpcode(cell));
        }
        let opcode: i64 = cell % 100;
        let first: i64 = cell / 100 % 10;
        let second: i64 = cell / 1000 % 10;
        let third: i64 = cell / 10000 % 10;
        let count: usize = match operand_count(opcode) {
            Some(n) => n,
            None => {
                return Err(Fault::UnknownOpcode(cell));
            },
        };
        if (count >= 1 && first > 2) || (count >= 2 && second > 2) || (count >= 3 && third > 2) {
            return Err(Fault::UnknownOpcode(cell));
        }
        let room: usize = code.len() - 1 - pointer;
        if count > room || (count as u64) > 0x7fff_ffff_ffff_ffffu64 - (pointer as u64) {
            return Err(Fault::MemoryFault(clip_index(code.len())));
        }
        let instr = if opcode == 1 {
            Instruction::Add(
                Value::from(code[pointer + 1], first),
                Value::from(code[pointer + 2], second),
                Value::from(code[pointer + 3], third),
            )
        } else if opcode == 2 {
            Instruction::Mul(
                Value::from(code[pointer + 1], first),
                Value::from(code[pointer + 2], second),
                Value::from(code[pointer + 3], third),
            )
        } else if opcode == 3 {
            Instruction::Inp(Value::from(code[pointer + 1], first))
        } else if opcode == 4 {
            Instruction::Out(Value::from(code[pointer + 1], first))
        } else if opcode == 5 {
            Instruction::JumpIfTrue(
                Value::from(code[pointer + 1], first),
                Value::from(code[pointer + 2], second),
            )
        } else if opcode == 6 {
            Instruction::JumpIfFalse(
                Value::from(code[pointer + 1], first),
                Value::from(code[pointer + 2], second),
            )
        } else if opcode == 7 {
            Instruction::LessThan(
                Value::from(code[pointer + 1], first),
                Value::from(code[pointer + 2], second),
                Value::from(code[pointer + 3], third),
            )
        } else if opcode == 8 {
            Instruction::Equals(
                Value::from(code[pointer + 1], first),
                Value::from(code[pointer + 2], second),
                Value::from(code[pointer + 3], third),
            )
        } else if opcode == 9 {
            Instruction::SetRelativeBase(Value::from(code[pointer + 1], first))
        } else {
            Instruction::Halt
        };
        Ok(instr)
    }

    /// The number of operands that the instruction carries, which is also the
    /// number of cells that follow its opcode cell.
    pub fn args_count(&self) -> (n: usize)
        ensures
            n == self.arity(),
    {
        match self {
            Instruction::Add(_, _, _) => 3,
            Instruction::Mul(_, _, _) => 3,
            Instruction::Inp(_) => 1,
            Instruction::Out(_) => 1,
            Instruction::JumpIfTrue(_, _) => 2,
            Instruction::JumpIfFalse(_, _) => 2,
            Instruction::LessThan(_, _, _) => 3,
            Instruction::Equals(_, _, _) => 3,
            Instruction::SetRelativeBase(_) => 1,
            Instruction::Halt => 0,
        }
    }
}

/// The number of operands of an opcode.
fn operand_count(opcode: i64) -> (n: Option<usize>)
    ensures
        match n {
            Some(k) => opcode_arity(opcode as int) == Some(k as nat),
            None => opcode_arity(opcode as int) is None,
        },
{
    if opcode == 1 || opcode == 2 || opcode == 7 || opcode == 8 {
        Some(3)
    } else if opcode == 5 || opcode == 6 {
        Some(2)
    } else if opcode == 3 || opcode == 4 || opcode == 9 {
        Some(1)
    } else if opcode == 99 {
        Some(0)
    } else {
        None
    }
}

impl Instruction {
    /// What an arithmetic or comparison instruction computes from the values
    /// of its first two operands. Sums and products wrap around.
    pub open spec fn compute(self, x: i64, y: i64) -> i64 {
        match self {
            Instruction::Add(_, _, _) => x.wrapping_add(y),
            Instruction::Mul(_, _, _) => x.wrapping_mul(y),
            Instruction::LessThan(_, _, _) => if x < y {
                1
            } else {
                0
            },
            Instruction::Equals(_, _, _) => if x == y {
                1
            } else {
                0
            },
            _ => 0,
        }
    }
}

/// The mathematical model of a machine: everything that determines how it
/// goes on.
pub struct Machine {
    /// The memory, which holds code and data alike.
    pub memory: Seq<i64>,
    /// The address of the next instruction.
    pub pointer: int,
    /// The base that relative operands are offset from.
    pub relative_base: i64,
    /// The values supplied and not yet consumed, oldest first.
    pub input: Seq<i64>,
    /// The values produced and not yet taken away, oldest first.
    pub output: Seq<i64>,
    /// Whether the machine yields after each output.
    pub halt_on_output: bool,
    /// Whether the machine yields when it needs input and has none.
    pub halt_on_missing_input: bool,
}

impl Machine {
    /// A fresh machine for a program: pointer and relative base at zero, empty
    /// queues, no suspension configured.
    pub open spec fn boot(program: Seq<i64>) -> Machine {
        Machine {
            memory: program,
            pointer: 0,
            relative_base: 0,
            input: Seq::empty(),
            output: Seq::empty(),
            halt_on_output: false,
            halt_on_missing_input: false,
        }
    }

    /// Whether the machine sits on a halt instruction: the cell at the pointer
    /// is 99.
    pub open spec fn halted(self) -> bool {
        addressable(self.memory, self.pointer) && self.memory[self.pointer] == 99
    }

    /// The machine with its memory padded with zeros to `size` cells. A memory
    /// that is as long already is left as it is.
    pub open spec fn grown(self, size: nat) -> Machine {
        Machine {
            memory: self.memory + Seq::new(
                if size > self.memory.len() {
                    (size - self.memory.len()) as nat
                } else {
                    0
                },
                |i: int| 0i64,
            ),
            ..self
        }
    }

    /// The machine with one more value at the back of its input queue.
    pub open spec fn supply(self, val: i64) -> Machine {
        Machine { input: self.input.push(val), ..self }
    }

    /// Stores `value` at the destination `dst` and moves the pointer to
    /// `next`, unless the destination is no cell.
    pub open spec fn store(self, dst: Value, value: i64, next: int) -> (Machine, Result<
        State,
        Fault,
    >) {
        match dst.target(self.memory, self.relative_base) {
            Err(fault) => (self, Err(fault)),
            Ok(addr) => (
                Machine { memory: self.memory.update(addr as int, value), pointer: next, ..self },
                Ok(State::Running),
            ),
        }
    }

    /// An instruction that combines two operands into a third.
    pub open spec fn binary(self, instr: Instruction, a: Value, b: Value, c: Value) -> (
        Machine,
        Result<State, Fault>,
    ) {
        match a.read(self.memory, self.relative_base) {
            Err(fault) => (self, Err(fault)),
            Ok(x) => match b.read(self.memory, self.relative_base) {
                Err(fault) => (self, Err(fault)),
                Ok(y) => self.store(c, instr.compute(x, y), self.pointer + 4),
            },
        }
    }

    /// A conditional jump: if the first operand is zero or not, as `on_zero`
    /// says, the pointer becomes the value of the second operand, which must
    /// be an index; otherwise the pointer moves on by three.
    pub open spec fn jump(self, on_zero: bool, a: Value, b: Value) -> (Machine, Result<
        State,
        Fault,
    >) {
        match a.read(self.memory, self.relative_base) {
            Err(fault) => (self, Err(fault)),
            Ok(x) => if (x == 0) == on_zero {
                match b.read(self.memory, self.relative_base) {
                    Err(fault) => (self, Err(fault)),
                    Ok(to) => if 0 <= to <= usize::MAX {
                        (Machine { pointer: to as int, ..self }, Ok(State::Running))
                    } else {
                        (self, Err(Fault::MemoryFault(to)))
                    },
                }
            } else {
                (Machine { pointer: self.pointer + 3, ..self }, Ok(State::Running))
            },
        }
    }

    /// The effect of one decoded instruction.
    pub open spec fn apply(self, instr: Instruction) -> (Machine, Result<State, Fault>) {
        match instr {
            Instruction::Add(a, b, c) => self.binary(instr, a, b, c),
            Instruction::Mul(a, b, c) => self.binary(instr, a, b, c),
            Instruction::LessThan(a, b, c) => self.binary(instr, a, b, c),
            Instruction::Equals(a, b, c) => self.binary(instr, a, b, c),
            Instruction::Inp(a) => if self.input.len() > 0 {
                match self.store(a, self.input[0], self.pointer + 2) {
                    (next, Ok(state)) => (Machine { input: self.input.drop_first(), ..next }, Ok(state)),
                    (_, Err(fault)) => (self, Err(fault)),
                }
            } else if self.halt_on_missing_input {
                (self, Ok(State::SuspendedOnMissingInput))
            } else {
                (self, Err(Fault::MissingInput))
            },
            Instruction::Out(a) => match a.read(self.memory, self.relative_base) {
                Err(fault) => (self, Err(fault)),
                Ok(x) => (
                    Machine { output: self.output.push(x), pointer: self.pointer + 2, ..self },
                    Ok(
                        if self.halt_on_output {
                            State::SuspendedOnOutput
                        } else {
                            State::Running
                        },
                    ),
                ),
            },
            Instruction::JumpIfTrue(a, b) => self.jump(false, a, b),
            Instruction::JumpIfFalse(a, b) => self.jump(true, a, b),
            Instruction::SetRelativeBase(a) => match a.read(self.memory, self.relative_base) {
                Err(fault) => (self, Err(fault)),
                Ok(x) => (
                    Machine {
                        relative_base: self.relative_base.wrapping_add(x),
                        pointer: self.pointer + 2,
                        ..self
                    },
                    Ok(State::Running),
                ),
            },
            Instruction::Halt => (self, Ok(State::Halted)),
        }
    }

    /// One step: decode the instruction at the pointer and apply it. Whenever
    /// the result is a fault, the machine is as it was.
    pub open spec fn step(self) -> (Machine, Result<State, Fault>) {
        match decode(self.memory, self.pointer) {
            Err(fault) => (self, Err(fault)),
            Ok(instr) => self.apply(instr),
        }
    }

    /// Stepping for as long as the steps end in `Running`, at most `fuel`
    /// times. The result of the first step that ends otherwise is the result
    /// of the run; a run that uses up its fuel ends in `Running`.
    pub open spec fn run(self, fuel: nat) -> (Machine, Result<State, Fault>)
        decreases fuel,
    {
        if fuel == 0 {
            (self, Ok(State::Running))
        } else {
            let (next, result) = self.step();
            if result == Ok::<State, Fault>(State::Running) {
                next.run((fuel - 1) as nat)
            } else {
                (next, result)
            }
        }
    }
}

/// The number of steps after which [`Computer::execute`] gives up waiting for
/// the machine to yield.
pub const STEP_BUDGET: u64 = 0xffff_ffff_ffff_ffff;

/// The executable machine.
#[derive(Debug)]
pub struct Computer {
    /// Data of the program
    code: Vec<i64>,
    /// Code pointer
    pointer: usize,
    /// Output of the computer
    output: VecDeque<i64>,
    /// Input of the computer
    input: VecDeque<i64>,
    /// Whether the computer yields after each output
    halt_on_output: bool,
    /// Whether the computer yields on missing input
    halt_on_missing_input: bool,
    /// The relative base
    relative_base: i64,
}

impl View for Computer {
    type V = Machine;

    closed spec fn view(&self) -> Machine {
        Machine {
            memory: self.code@,
            pointer: self.pointer as int,
            relative_base: self.relative_base,
            input: self.input@,
            output: self.output@,
            halt_on_output: self.halt_on_output,
            halt_on_missing_input: self.halt_on_missing_input,
        }
    }
}

impl Computer {
    /// Creates a machine that is about to run `code` from its first cell.
    pub fn new(code: Vec<i64>) -> (computer: Computer)
        ensures
            computer@ == Machine::boot(code@),
    {
        Computer {
            code,
            pointer: 0,
            output: VecDeque::new(),
            input: VecDeque::new(),
            halt_on_output: false,
            halt_on_missing_input: false,
            relative_base: 0,
        }
    }

    /// Overwrites the cell at `addr`.
    pub fn set(&mut self, addr: usize, value: i64) -> (r: Result<(), Fault>)
        ensures
            addressable(old(self)@.memory, addr as int) ==> r is Ok && final(self)@ == (Machine {
                memory: old(self)@.memory.update(addr as int, value),
                ..old(self)@
            }),
            !addressable(old(self)@.memory, addr as int) ==> r == Err::<(), Fault>(
                Fault::MemoryFault(clip(addr as int)),
            ) && final(self)@ == old(self)@,
    {
        if addr < self.code.len() && (addr as u64) <= 0x7fff_ffff_ffff_ffffu64 {
            self.code.set(addr, value);
            Ok(())
        } else {
            Err(Fault::MemoryFault(clip_index(addr)))
        }
    }

    /// Makes the memory at least `memory` cells long. New cells hold zero; a
    /// memory that is long enough already is left alone.
    pub fn set_available_memory(self, memory: usize) -> (computer: Computer)
        ensures
            computer@ == self@.grown(memory as nat),
    {
        let mut computer = self;
        let ghost before = computer.code@;
        while computer.code.len() < memory
            invariant
                computer.code@.len() <= memory || computer.code@ == before,
                computer.code@.len() >= before.len(),
                computer.code@ == before + Seq::new(
                    (computer.code@.len() - before.len()) as nat,
                    |i: int| 0i64,
                ),
                computer.pointer == self.pointer,
                computer.relative_base == self.relative_base,
                computer.input == self.input,
                computer.output == self.output,
                computer.halt_on_output == self.halt_on_output,
                computer.halt_on_missing_input == self.halt_on_missing_input,
            decreases memory - computer.code.len(),
        {
            computer.code.push(0);
        }
        computer
    }

    /// The cell at `addr`.
    pub fn get(&self, addr: usize) -> (r: Result<i64, Fault>)
        ensures
            r == load(self@.memory, addr as int),
    {
        if addr < self.code.len() && (addr as u64) <= 0x7fff_ffff_ffff_ffffu64 {
            Ok(self.code[addr])
        } else {
            Err(Fault::MemoryFault(clip_index(addr)))
        }
    }

    /// Appends a value to the input queue.
    pub fn input(&mut self, val: i64)
        ensures
            final(self)@ == old(self)@.supply(val),
    {
        self.input.push_back(val);
    }

    /// Removes the oldest output value and returns it, if there is one.
    pub fn get_next_output(&mut self) -> (next: Option<i64>)
        ensures
            old(self)@.output.len() == 0 ==> next is None && final(self)@ == old(self)@,
            old(self)@.output.len() > 0 ==> next == Some(old(self)@.output[0]) && final(self)@ == (
            Machine { output: old(self)@.output.drop_first(), ..old(self)@ }),
    {
        self.output.pop_front()
    }

    /// All the output values that have not been removed, oldest first.
    pub fn get_all_output(&self) -> (all: Vec<i64>)
        ensures
            all@ == self@.output,
    {
        let mut all: Vec<i64> = Vec::new();
        let mut i: usize = 0;
        while i < self.output.len()
            invariant
                i <= self.output@.len(),
                all@ == self.output@.take(i as int),
            decreases self.output@.len() - i,
        {
            all.push(self.output[i]);
            i += 1;
        }
        all
    }

    /// Makes the machine yield after each output.
    pub fn halt_on_output(self) -> (computer: Computer)
        ensures
            computer@ == (Machine { halt_on_output: true, ..self@ }),
    {
        let mut computer = self;
        computer.halt_on_output = true;
        computer
    }

    /// Makes the machine yield, instead of failing, when it needs input and
    /// has none.
    pub fn halt_on_missing_input(self) -> (computer: Computer)
        ensures
            computer@ == (Machine { halt_on_missing_input: true, ..self@ }),
    {
        let mut computer = self;
        computer.halt_on_missing_input = true;
        computer
    }

    /// The address of the next instruction.
    pub fn pointer(&self) -> (p: usize)
        ensures
            p == self@.pointer,
    {
        self.pointer
    }

    /// The memory as it stands.
    pub fn memory(&self) -> (cells: &Vec<i64>)
        ensures
            cells@ == self@.memory,
    {
        &self.code
    }

    /// The value that an operand reads.
    fn read(&self, operand: Value) -> (r: Result<i64, Fault>)
        ensures
            r == operand.read(self@.memory, self@.relative_base),
    {
        operand.evaluate(&self.code, self.relative_base, false)
    }

    /// Stores `value` at the destination `dst` and moves the pointer to
    /// `next`.
    fn store(&mut self, dst: Value, value: i64, next: usize) -> (r: Result<State, Fault>)
        ensures
            (final(self)@, r) == old(self)@.store(dst, value, next as int),
    {
        match dst.evaluate(&self.code, self.relative_base, true) {
            Ok(addr) => {
                if is_cell(&self.code, addr) {
                    self.code.set(addr as usize, value);
                    self.pointer = next;
                    Ok(State::Running)
                } else {
                    Err(Fault::MemoryFault(addr))
                }
            },
            Err(fault) => Err(fault),
        }
    }

    /// Executes an instruction that combines two operands into a third.
    fn binary(&mut self, instr: Instruction, a: Value, b: Value, c: Value) -> (r: Result<
        State,
        Fault,
    >)
        requires
            old(self)@.pointer + 4 <= usize::MAX,
            instr is Add || instr is Mul || instr is LessThan || instr is Equals,
        ensures
            (final(self)@, r) == old(self)@.binary(instr, a, b, c),
    {
        let x: i64 = match self.read(a) {
            Ok(x) => x,
            Err(fault) => {
                return Err(fault);
            },
        };
        let y: i64 = match self.read(b) {
            Ok(y) => y,
            Err(fault) => {
                return Err(fault);
            },
        };
        let value: i64 = match instr {
            Instruction::Add(_, _, _) => x.wrapping_add(y),
            Instruction::Mul(_, _, _) => x.wrapping_mul(y),
            Instruction::LessThan(_, _, _) => if x < y {
                1
            } else {
                0
            },
            _ => if x == y {
                1
            } else {
                0
            },
        };
        let next: usize = self.pointer + 4;
        self.store(c, value, next)
    }

    /// Executes a conditional jump.
    fn jump(&mut self, on_zero: bool, a: Value, b: Value) -> (r: Result<State, Fault>)
        requires
            old(self)@.pointer + 3 <= usize::MAX,
        ensures
            (final(self)@, r) == old(self)@.jump(on_zero, a, b),
    {
        let x: i64 = match self.read(a) {
            Ok(x) => x,
            Err(fault) => {
                return Err(fault);
            },
        };
        if (x == 0) == on_zero {
            let to: i64 = match self.read(b) {
                Ok(to) => to,
                Err(fault) => {
                    return Err(fault);
                },
            };
            if to < 0 || (to as u64) > (usize::MAX as u64) {
                return Err(Fault::MemoryFault(to));
            }
            self.pointer = to as usize;
        } else {
            self.pointer = self.pointer + 3;
        }
        Ok(State::Running)
    }

    /// Executes the next instruction and says in what state that leaves the
    /// machine.
    ///
    /// On a halt instruction the result is `Halted` and nothing changes, however
    /// often the step is repeated. An input instruction that finds no input
    /// changes nothing either, so that it is tried again by the next step.
    pub fn step(&mut self) -> (r: Result<State, Fault>)
        ensures
            (final(self)@, r) == old(self)@.step(),
    {
        let instr = match Instruction::parse_instr(&self.code, self.pointer) {
            Ok(instr) => instr,
            Err(fault) => {
                return Err(fault);
            },
        };
        match instr {
            Instruction::Add(a, b, c) => self.binary(instr, a, b, c),
            Instruction::Mul(a, b, c) => self.binary(instr, a, b, c),
            Instruction::LessThan(a, b, c) => self.binary(instr, a, b, c),
            Instruction::Equals(a, b, c) => self.binary(instr, a, b, c),
            Instruction::Inp(a) => {
                if self.input.len() > 0 {
                    let val: i64 = self.input[0];
                    let next: usize = self.pointer + 2;
                    match self.store(a, val, next) {
                        Ok(state) => {
                            self.input.pop_front();
                            Ok(state)
                        },
                        Err(fault) => Err(fault),
                    }
                } else if self.halt_on_missing_input {
                    Ok(State::SuspendedOnMissingInput)
                } else {
                    Err(Fault::MissingInput)
                }
            },
            Instruction::Out(a) => {
                let x: i64 = match self.read(a) {
                    Ok(x) => x,
                    Err(fault) => {
                        return Err(fault);
                    },
                };
                self.output.push_back(x);
                self.pointer = self.pointer + 2;
                if self.halt_on_output {
                    Ok(State::SuspendedOnOutput)
                } else {
                    Ok(State::Running)
                }
            },
            Instruction::JumpIfTrue(a, b) => self.jump(false, a, b),
            Instruction::JumpIfFalse(a, b) => self.jump(true, a, b),
            Instruction::SetRelativeBase(a) => {
                let x: i64 = match self.read(a) {
                    Ok(x) => x,
                    Err(fault) => {
                        return Err(fault);
                    },
                };
                self.relative_base = self.relative_base.wrapping_add(x);
                self.pointer = self.pointer + 2;
                Ok(State::Running)
            },
            Instruction::Halt => Ok(State::Halted),
        }
    }

    /// Runs the machine until it yields: until a step ends in anything but
    /// `Running`, whose result is then returned. A machine that is halted
    /// already stays as it is.
    ///
    /// A machine that has not yielded after [`STEP_BUDGET`] steps is returned
    /// as it then stands, with `Running`.
    pub fn execute(&mut self) -> (r: Result<State, Fault>)
        ensures
            (final(self)@, r) == old(self)@.run(STEP_BUDGET as nat),
    {
        let mut fuel: u64 = STEP_BUDGET;
        while fuel > 0
            invariant
                self@.run(fuel as nat) == old(self)@.run(STEP_BUDGET as nat),
            decreases fuel,
        {
            match self.step() {
                Ok(State::Running) => {
                    fuel = fuel - 1;
                },
                other => {
                    return other;
                },
            }
        }
        Ok(State::Running)
    }

    /// Whether the machine sits on a halt instruction.
    pub fn halted(&self) -> (b: bool)
        ensures
            b == self@.halted(),
    {
        self.pointer < self.code.len() && (self.pointer as u64) <= 0x7fff_ffff_ffff_ffffu64
            && self.code[self.pointer] == 99
    }
}

/// A machine that sits on a halt instruction stays exactly as it is: a step
/// changes nothing and ends in `Halted`, and so does a run of any length.
pub proof fn lemma_halted_is_final(m: Machine, fuel: nat)
    requires
        m.halted(),
    ensures
        m.step() == (m, Ok::<State, Fault>(State::Halted)),
        fuel > 0 ==> m.run(fuel) == (m, Ok::<State, Fault>(State::Halted)),
{
    assert(encodes_instruction(99i64));
    assert(decode(m.memory, m.pointer) == Ok::<Instruction, Fault>(Instruction::Halt));
}

/// A step ends in `Halted` exactly when the cell at the pointer is 99.
///
/// This is stated for machines whose cell at the pointer is not a larger
/// number that ends in the digits 99: such a cell also decodes to a halt
/// instruction, with mode digits that belong to no operand.
pub proof fn lemma_step_halts_iff_halted(m: Machine)
    requires
        !(addressable(m.memory, m.pointer) && m.memory[m.pointer] > 99 && m.memory[m.pointer] % 100
            == 99),
    ensures
        m.step().1 == Ok::<State, Fault>(State::Halted) <==> m.halted(),
{
    if m.halted() {
        lemma_halted_is_final(m, 1);
    }
}

/// Growing the memory never shrinks it: the cells that were there stay as
/// they are, the new ones hold zero, and the length is the greater of the old
/// length and the size asked for.
pub proof fn lemma_grown(m: Machine, size: nat)
    ensures
        m.grown(size).memory.len() == if size > m.memory.len() {
            size
        } else {
            m.memory.len()
        },
        forall|i: int| 0 <= i < m.memory.len() ==> m.grown(size).memory[i] == m.memory[i],
        forall|i: int| m.memory.len() <= i < size ==> m.grown(size).memory[i] == 0,
        m.grown(size).grown(size) == m.grown(size),
{
    assert(m.grown(size).grown(size).memory =~= m.grown(size).memory);
}

impl Machine {
    /// The machine with other suspension settings.
    pub open spec fn with_settings(self, on_output: bool, on_missing_input: bool) -> Machine {
        Machine { halt_on_output: on_output, halt_on_missing_input: on_missing_input, ..self }
    }
}

/// How a step ends under other suspension settings, given how it ends under
/// the settings of the machine and whether it produces output: an output ends
/// the step in `SuspendedOnOutput` or in `Running`, and an input instruction
/// without input in `SuspendedOnMissingInput` or in the fault `MissingInput`,
/// as the settings say. Any other step ends as it does.
pub open spec fn ends_with(
    result: Result<State, Fault>,
    produces: bool,
    on_output: bool,
    on_missing_input: bool,
) -> Result<State, Fault> {
    if produces {
        if on_output {
            Ok(State::SuspendedOnOutput)
        } else {
            Ok(State::Running)
        }
    } else if result == Ok::<State, Fault>(State::SuspendedOnMissingInput) || result == Err::<
        State,
        Fault,
    >(Fault::MissingInput) {
        if on_missing_input {
            Ok(State::SuspendedOnMissingInput)
        } else {
            Err(Fault::MissingInput)
        }
    } else {
        result
    }
}

/// The suspension settings do not change what an instruction does, only how
/// a step ends: with other settings, an instruction leaves the same memory,
/// pointer, relative base and queues, and ends as [`ends_with`] says.
pub proof fn lemma_settings_only_end_instructions(
    m: Machine,
    instr: Instruction,
    on_output: bool,
    on_missing_input: bool,
)
    ensures
        m.with_settings(on_output, on_missing_input).apply(instr).0 == m.apply(
            instr,
        ).0.with_settings(on_output, on_missing_input),
        m.with_settings(on_output, on_missing_input).apply(instr).1 == ends_with(
            m.apply(instr).1,
            m.apply(instr).0.output.len() > m.output.len(),
            on_output,
            on_missing_input,
        ),
{
    let other = m.with_settings(on_output, on_missing_input);
    match instr {
        Instruction::Add(a, b, c) => {
            assert(other.binary(instr, a, b, c).0 == m.binary(instr, a, b, c).0.with_settings(
                on_output,
                on_missing_input,
            ));
        },
        Instruction::Mul(a, b, c) => {
            assert(other.binary(instr, a, b, c).0 == m.binary(instr, a, b, c).0.with_settings(
                on_output,
                on_missing_input,
            ));
        },
        Instruction::LessThan(a, b, c) => {
            assert(other.binary(instr, a, b, c).0 == m.binary(instr, a, b, c).0.with_settings(
                on_output,
                on_missing_input,
            ));
        },
        Instruction::Equals(a, b, c) => {
            assert(other.binary(instr, a, b, c).0 == m.binary(instr, a, b, c).0.with_settings(
                on_output,
                on_missing_input,
            ));
        },
        Instruction::Inp(a) => {
            assert(other.store(a, m.input[0], m.pointer + 2).0 == m.store(
                a,
                m.input[0],
                m.pointer + 2,
            ).0.with_settings(on_output, on_missing_input));
        },
        Instruction::Out(a) => {
            assert(m.output.push(0).len() > m.output.len());
        },
        Instruction::JumpIfTrue(a, b) => {
            assert(other.jump(false, a, b).0 == m.jump(false, a, b).0.with_settings(
                on_output,
                on_missing_input,
            ));
        },
        Instruction::JumpIfFalse(a, b) => {
            assert(other.jump(true, a, b).0 == m.jump(true, a, b).0.with_settings(
                on_output,
                on_missing_input,
            ));
        },
        Instruction::SetRelativeBase(a) => {},
        Instruction::Halt => {},
    }
}

/// The suspension settings do not change what a step does, only how it ends.
pub proof fn lemma_settings_only_end_steps(m: Machine, on_output: bool, on_missing_input: bool)
    ensures
        m.with_settings(on_output, on_missing_input).step().0 == m.step().0.with_settings(
            on_output,
            on_missing_input,
        ),
        m.with_settings(on_output, on_missing_input).step().1 == ends_with(
            m.step().1,
            m.step().0.output.len() > m.output.len(),
            on_output,
            on_missing_input,
        ),
{
    match decode(m.memory, m.pointer) {
        Ok(instr) => {
            lemma_settings_only_end_instructions(m, instr, on_output, on_missing_input);
        },
        Err(_) => {},
    }
}

/// A run that yields does not depend on its fuel: with more fuel it ends in
/// the same way.
pub proof fn lemma_run_with_more_fuel(m: Machine, fuel: nat, more: nat)
    requires
        fuel <= more,
        m.run(fuel).1 != Ok::<State, Fault>(State::Running),
    ensures
        m.run(more) == m.run(fuel),
    decreases fuel,
{
    if fuel > 0 && m.step().1 == Ok::<State, Fault>(State::Running) {
        lemma_run_with_more_fuel(m.step().0, (fuel - 1) as nat, (more - 1) as nat);
    }
}

/// A step that ends in `Halted` was taken on a halt instruction, and a step
/// that ends in `SuspendedOnMissingInput` on an input instruction, with an
/// empty input queue. Either leaves the machine as it was.
pub proof fn lemma_step_ends_on_instruction(m: Machine)
    ensures
        m.step().1 == Ok::<State, Fault>(State::Halted) ==> m.step().0 == m && decode(
            m.memory,
            m.pointer,
        ) == Ok::<Instruction, Fault>(Instruction::Halt),
        m.step().1 == Ok::<State, Fault>(State::SuspendedOnMissingInput) ==> m.step().0 == m
            && m.input.len() == 0 && decode(m.memory, m.pointer) == Ok::<Instruction, Fault>(
            Instruction::Inp(operand(m.memory, m.pointer, 1)),
        ),
{
}

/// A run that ends in `Halted` leaves the machine on a halt instruction, and
/// a run that ends in `SuspendedOnMissingInput` leaves it on an input
/// instruction, with an empty input queue.
pub proof fn lemma_run_ends_on_instruction(m: Machine, fuel: nat)
    ensures
        m.run(fuel).1 == Ok::<State, Fault>(State::Halted) ==> decode(
            m.run(fuel).0.memory,
            m.run(fuel).0.pointer,
        ) == Ok::<Instruction, Fault>(Instruction::Halt),
        m.run(fuel).1 == Ok::<State, Fault>(State::SuspendedOnMissingInput) ==> decode(
            m.run(fuel).0.memory,
            m.run(fuel).0.pointer,
        ) == Ok::<Instruction, Fault>(
            Instruction::Inp(operand(m.run(fuel).0.memory, m.run(fuel).0.pointer, 1)),
        ) && m.run(fuel).0.input.len() == 0,
    decreases fuel,
{
    if fuel > 0 {
        let (next, result) = m.step();
        if result == Ok::<State, Fault>(State::Running) {
            assert(m.run(fuel) == next.run((fuel - 1) as nat));
            lemma_run_ends_on_instruction(next, (fuel - 1) as nat);
        } else {
            assert(m.run(fuel) == (next, result));
            lemma_step_ends_on_instruction(m);
        }
    }
}

/// A step never changes the machine when it ends in a fault, in `Halted`, or
/// in `SuspendedOnMissingInput`.
pub proof fn lemma_step_without_effect(m: Machine)
    ensures
        m.step().1 is Err ==> m.step().0 == m,
        m.step().1 == Ok::<State, Fault>(State::Halted) ==> m.step().0 == m,
        m.step().1 == Ok::<State, Fault>(State::SuspendedOnMissingInput) ==> m.step().0 == m,
{
}

/// A machine that has yielded for want of input takes up the same input
/// instruction once a value is supplied: the next step stores that value at
/// the instruction's destination, leaves the input queue empty, moves the
/// pointer past the instruction and ends in `Running`.
///
/// This is stated for an input instruction whose destination is a cell; with
/// any other the step after the supply ends in a memory fault.
pub proof fn lemma_resume_after_missing_input(m: Machine, val: i64)
    requires
        m.step().1 == Ok::<State, Fault>(State::SuspendedOnMissingInput),
        operand(m.memory, m.pointer, 1).target(m.memory, m.relative_base) is Ok,
    ensures
        m.step().0 == m,
        decode(m.memory, m.pointer) == Ok::<Instruction, Fault>(
            Instruction::Inp(operand(m.memory, m.pointer, 1)),
        ),
        operand(m.memory, m.pointer, 1).target(m.memory, m.relative_base) matches Ok(dst)
            && m.supply(val).step() == (
            Machine { memory: m.memory.update(dst as int, val), pointer: m.pointer + 2, ..m },
            Ok::<State, Fault>(State::Running),
        ),
{
    assert(m.input =~= Seq::<i64>::empty());
    assert(m.supply(val).input.drop_first() =~= m.input);
}

/// Whether `addr` designates a cell of `code`.
fn is_cell(code: &Vec<i64>, addr: i64) -> (b: bool)
    ensures
        b == addressable(code@, addr as int),
        b ==> addr < code.len(),
{
    addr >= 0 && (addr as u64) < (code.len() as u64)
}

/// Reads the cell at `addr`.
fn fetch(code: &Vec<i64>, addr: i64) -> (r: Result<i64, Fault>)
    ensures
        r == load(code@, addr as int),
{
    if is_cell(code, addr) {
        Ok(code[addr as usize])
    } else {
        Err(Fault::MemoryFault(addr))
    }
}

/// Clips an index into the range of a cell.
fn clip_index(i: usize) -> (c: i64)
    ensures
        c == clip(i as int),
{
    if (i as u64) > 0x7fff_ffff_ffff_ffffu64 {
        i64::MAX
    } else {
        i as i64
    }
}

} // verus!
