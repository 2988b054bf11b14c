use aoc2019::intcode_computer::{
    parse_input, Computer, Fault, Instruction, State, Value, STEP_BUDGET,
};

#[test]
fn computer_test_case() {
    let input = parse_input("1002,4,3,4,33").unwrap();
    let mut computer = Computer::new(input);
    assert_eq!(computer.step(), Ok(State::Running));
    assert_eq!(computer.get(4), Ok(99));
    assert_eq!(computer.step(), Ok(State::Halted));
}

#[test]
fn computer_day9_tests() {
    let input = parse_input("109,1,204,-1,1001,100,1,100,1008,100,16,101,1006,101,0,99").unwrap();
    let mut computer = Computer::new(input).set_available_memory(150);
    assert_eq!(computer.execute(), Ok(State::Halted));
    let output: Vec<i64> = computer.get_all_output();
    assert_eq!(
        output,
        vec![109, 1, 204, -1, 1001, 100, 1, 100, 1008, 100, 16, 101, 1006, 101, 0, 99]
    );

    let input = parse_input("1102,34915192,34915192,7,4,7,99,0").unwrap();
    let mut computer = Computer::new(input).set_available_memory(150);
    assert_eq!(computer.execute(), Ok(State::Halted));
    let nb = computer.get_next_output().unwrap();
    assert_eq!(nb.to_string().len(), 16);
    assert_eq!(nb, 1219070632396864);
    assert_eq!(computer.get_next_output(), None);

    let input = parse_input("104,1125899906842624,99").unwrap();
    let mut computer = Computer::new(input);
    assert_eq!(computer.execute(), Ok(State::Halted));
    assert_eq!(computer.get_next_output().unwrap(), 1125899906842624);
}

#[test]
fn computer_three_steps() {
    let mut computer = Computer::new(vec![1, 9, 10, 3, 2, 3, 11, 0, 99, 30, 40, 50]);
    assert_eq!(computer.step(), Ok(State::Running));
    assert_eq!(computer.pointer(), 4);
    assert_eq!(computer.memory(), &vec![1, 9, 10, 70, 2, 3, 11, 0, 99, 30, 40, 50]);
    assert_eq!(computer.step(), Ok(State::Running));
    assert_eq!(computer.get(0), Ok(3500));
    assert_eq!(computer.pointer(), 8);
    assert!(computer.halted());
    assert_eq!(computer.step(), Ok(State::Halted));
    assert_eq!(computer.pointer(), 8);
    assert_eq!(computer.memory(), &vec![3500, 9, 10, 70, 2, 3, 11, 0, 99, 30, 40, 50]);
    assert_eq!(computer.execute(), Ok(State::Halted));
    assert_eq!(computer.memory(), &vec![3500, 9, 10, 70, 2, 3, 11, 0, 99, 30, 40, 50]);
}

#[test]
fn computer_decodes_parameter_modes() {
    let code = vec![1002, 4, 3, 4, 33];
    assert_eq!(
        Instruction::parse_instr(&code, 0),
        Ok(Instruction::Mul(Value::Position(4), Value::Immediate(3), Value::Position(4)))
    );
    assert_eq!(Instruction::parse_instr(&code, 0).unwrap().args_count(), 3);
    let code = vec![21101, 5, 6, 7, 204, -3, 2105, 1, 0, 9, 8, 99];
    assert_eq!(
        Instruction::parse_instr(&code, 0),
        Ok(Instruction::Add(Value::Immediate(5), Value::Immediate(6), Value::Relative(7)))
    );
    assert_eq!(Instruction::parse_instr(&code, 4), Ok(Instruction::Out(Value::Relative(-3))));
    assert_eq!(
        Instruction::parse_instr(&code, 6),
        Ok(Instruction::JumpIfTrue(Value::Immediate(1), Value::Relative(0)))
    );
    assert_eq!(Instruction::parse_instr(&code, 6).unwrap().args_count(), 2);
    assert_eq!(
        Instruction::parse_instr(&code, 9),
        Ok(Instruction::SetRelativeBase(Value::Position(8)))
    );
    assert_eq!(Instruction::parse_instr(&code, 9).unwrap().args_count(), 1);
    assert_eq!(Instruction::parse_instr(&code, 11), Ok(Instruction::Halt));
    assert_eq!(Instruction::Halt.args_count(), 0);
}

#[test]
fn computer_decoding_faults() {
    assert_eq!(Instruction::parse_instr(&vec![42, 0, 0, 0], 0), Err(Fault::UnknownOpcode(42)));
    assert_eq!(Instruction::parse_instr(&vec![0, 0, 0, 0], 0), Err(Fault::UnknownOpcode(0)));
    assert_eq!(Instruction::parse_instr(&vec![-1, 0, 0, 0], 0), Err(Fault::UnknownOpcode(-1)));
    assert_eq!(Instruction::parse_instr(&vec![302, 0, 0, 0], 0), Err(Fault::UnknownOpcode(302)));
    assert_eq!(Instruction::parse_instr(&vec![30004, 0], 0), Ok(Instruction::Out(Value::Position(0))));
    assert_eq!(Instruction::parse_instr(&vec![1099], 0), Ok(Instruction::Halt));
    assert_eq!(Instruction::parse_instr(&vec![1, 0, 0], 0), Err(Fault::MemoryFault(3)));
    assert_eq!(Instruction::parse_instr(&vec![99], 1), Err(Fault::MemoryFault(1)));
    assert_eq!(Instruction::parse_instr(&vec![], 0), Err(Fault::MemoryFault(0)));
}

#[test]
fn computer_operands() {
    let code = vec![10, 20, 30];
    assert_eq!(Value::from(2, 0), Value::Position(2));
    assert_eq!(Value::from(2, 1), Value::Immediate(2));
    assert_eq!(Value::from(2, 2), Value::Relative(2));
    assert_eq!(Value::Immediate(7).evaluate(&code, 0, false), Ok(7));
    assert_eq!(Value::Position(2).evaluate(&code, 0, false), Ok(30));
    assert_eq!(Value::Position(2).evaluate(&code, 0, true), Ok(2));
    assert_eq!(Value::Relative(-4).evaluate(&code, 5, false), Ok(20));
    assert_eq!(Value::Relative(-4).evaluate(&code, 5, true), Ok(1));
    assert_eq!(Value::Position(3).evaluate(&code, 0, false), Err(Fault::MemoryFault(3)));
    assert_eq!(Value::Position(-1).evaluate(&code, 0, false), Err(Fault::MemoryFault(-1)));
    assert_eq!(Value::Relative(-1).evaluate(&code, 0, true), Ok(-1));
    assert_eq!(
        Value::Relative(i64::MAX).evaluate(&code, 1, false),
        Err(Fault::MemoryFault(i64::MAX))
    );
    assert_eq!(
        Value::Relative(i64::MIN).evaluate(&code, -1, true),
        Err(Fault::MemoryFault(i64::MIN))
    );
}

#[test]
fn computer_memory_access() {
    let mut computer = Computer::new(vec![1, 2, 3]);
    assert_eq!(computer.get(2), Ok(3));
    assert_eq!(computer.get(3), Err(Fault::MemoryFault(3)));
    assert_eq!(computer.set(1, 50), Ok(()));
    assert_eq!(computer.get(1), Ok(50));
    assert_eq!(computer.set(3, 50), Err(Fault::MemoryFault(3)));
    assert_eq!(computer.memory(), &vec![1, 50, 3]);
    let computer = computer.set_available_memory(5);
    assert_eq!(computer.memory(), &vec![1, 50, 3, 0, 0]);
    let computer = computer.set_available_memory(2);
    assert_eq!(computer.memory(), &vec![1, 50, 3, 0, 0]);
}

#[test]
fn computer_faults_leave_the_machine_alone() {
    // writes beyond the memory
    let mut computer = Computer::new(vec![1101, 1, 1, 7, 99]);
    assert_eq!(computer.step(), Err(Fault::MemoryFault(7)));
    assert_eq!(computer.pointer(), 0);
    assert_eq!(computer.memory(), &vec![1101, 1, 1, 7, 99]);
    assert_eq!(computer.execute(), Err(Fault::MemoryFault(7)));
    // reads before the memory
    let mut computer = Computer::new(vec![4, -5, 99]);
    assert_eq!(computer.execute(), Err(Fault::MemoryFault(-5)));
    assert_eq!(computer.get_all_output(), Vec::<i64>::new());
    // an opcode that does not exist
    let mut computer = Computer::new(vec![1101, 1, 1, 0, 55, 99]);
    assert_eq!(computer.execute(), Err(Fault::UnknownOpcode(55)));
    assert_eq!(computer.pointer(), 4);
    assert_eq!(computer.get(0), Ok(2));
    // runs off the end
    let mut computer = Computer::new(vec![1101, 1, 1, 0]);
    assert_eq!(computer.execute(), Err(Fault::MemoryFault(4)));
    assert_eq!(computer.pointer(), 4);
    assert!(!computer.halted());
    // jumps to a negative address
    let mut computer = Computer::new(vec![1105, 1, -3, 99]);
    assert_eq!(computer.execute(), Err(Fault::MemoryFault(-3)));
    assert_eq!(computer.pointer(), 0);
    // the input is kept when its destination is no cell
    let mut computer = Computer::new(vec![3, 9, 99]);
    computer.input(5);
    assert_eq!(computer.step(), Err(Fault::MemoryFault(9)));
    let mut computer = computer.set_available_memory(10);
    assert_eq!(computer.execute(), Ok(State::Halted));
    assert_eq!(computer.get(9), Ok(5));
}

#[test]
fn computer_missing_input() {
    let mut computer = Computer::new(vec![3, 0, 4, 0, 99]);
    assert_eq!(computer.step(), Err(Fault::MissingInput));
    assert_eq!(computer.execute(), Err(Fault::MissingInput));
    assert_eq!(computer.pointer(), 0);
    computer.input(77);
    assert_eq!(computer.execute(), Ok(State::Halted));
    assert_eq!(computer.get_next_output(), Some(77));

    let mut computer = Computer::new(vec![3, 0, 4, 0, 99]).halt_on_missing_input();
    assert_eq!(computer.execute(), Ok(State::SuspendedOnMissingInput));
    assert_eq!(computer.step(), Ok(State::SuspendedOnMissingInput));
    assert_eq!(computer.pointer(), 0);
    assert!(!computer.halted());
    computer.input(78);
    assert_eq!(computer.step(), Ok(State::Running));
    assert_eq!(computer.pointer(), 2);
    assert_eq!(computer.get(0), Ok(78));
    assert_eq!(computer.execute(), Ok(State::Halted));
    assert_eq!(computer.get_all_output(), vec![78]);
}

#[test]
fn computer_halted_means_99_at_the_pointer() {
    let mut computer = Computer::new(vec![1101, 90, 9, 4, 0, 104, 5, 99]);
    assert!(!computer.halted());
    // the step writes 99 at the pointer it moves to
    assert_eq!(computer.step(), Ok(State::Running));
    assert_eq!(computer.get(4), Ok(99));
    assert!(computer.halted());
    for _ in 0..3 {
        assert_eq!(computer.step(), Ok(State::Halted));
        assert_eq!(computer.execute(), Ok(State::Halted));
        assert_eq!(computer.pointer(), 4);
        assert_eq!(computer.memory(), &vec![1101, 90, 9, 4, 99, 104, 5, 99]);
        assert_eq!(computer.get_all_output(), vec![]);
    }
    // a pointer behind the memory is not halted
    let mut computer = Computer::new(vec![1101, 1, 1, 0]);
    assert_eq!(computer.step(), Ok(State::Running));
    assert!(!computer.halted());
    // a cell that ends in 99 stops the machine, but only 99 itself counts as halted
    let mut computer = Computer::new(vec![1099]);
    assert!(!computer.halted());
    assert_eq!(computer.step(), Ok(State::Halted));
    assert_eq!(computer.pointer(), 0);
}

#[test]
fn computer_resumes_on_the_same_input_instruction() {
    let mut computer = Computer::new(vec![3, 7, 3, 8, 99, 0, 0, 0, 0]).halt_on_missing_input();
    assert_eq!(computer.execute(), Ok(State::SuspendedOnMissingInput));
    assert_eq!(computer.pointer(), 0);
    computer.input(41);
    assert_eq!(computer.step(), Ok(State::Running));
    assert_eq!(computer.pointer(), 2);
    assert_eq!(computer.get(7), Ok(41));
    // the queue is empty again
    assert_eq!(computer.step(), Ok(State::SuspendedOnMissingInput));
    assert_eq!(computer.pointer(), 2);
    assert_eq!(computer.memory(), &vec![3, 7, 3, 8, 99, 0, 0, 41, 0]);
    computer.input(42);
    computer.input(43);
    assert_eq!(computer.execute(), Ok(State::Halted));
    assert_eq!(computer.get(8), Ok(42));
    assert_eq!(computer.pointer(), 4);
    // relative destinations
    let mut computer = Computer::new(vec![109, 5, 203, 1, 99, 0, 0]).halt_on_missing_input();
    assert_eq!(computer.execute(), Ok(State::SuspendedOnMissingInput));
    assert_eq!(computer.pointer(), 2);
    computer.input(-9);
    assert_eq!(computer.execute(), Ok(State::Halted));
    assert_eq!(computer.get(6), Ok(-9));
}

#[test]
fn computer_suspends_on_output() {
    let mut computer = Computer::new(vec![104, 1, 104, 2, 99]).halt_on_output();
    assert_eq!(computer.execute(), Ok(State::SuspendedOnOutput));
    assert_eq!(computer.pointer(), 2);
    assert_eq!(computer.get_all_output(), vec![1]);
    assert_eq!(computer.execute(), Ok(State::SuspendedOnOutput));
    assert_eq!(computer.pointer(), 4);
    assert_eq!(computer.get_all_output(), vec![1, 2]);
    assert_eq!(computer.get_next_output(), Some(1));
    assert_eq!(computer.get_next_output(), Some(2));
    assert_eq!(computer.get_next_output(), None);
    assert_eq!(computer.execute(), Ok(State::Halted));
    assert!(computer.halted());
}

#[test]
fn computer_comparisons_and_jumps() {
    // outputs 1 if the input equals 8, else 0 (position mode)
    let code = vec![3, 9, 8, 9, 10, 9, 4, 9, 99, -1, 8];
    let mut computer = Computer::new(code.clone());
    computer.input(8);
    assert_eq!(computer.execute(), Ok(State::Halted));
    assert_eq!(computer.get_all_output(), vec![1]);
    let mut computer = Computer::new(code);
    computer.input(9);
    assert_eq!(computer.execute(), Ok(State::Halted));
    assert_eq!(computer.get_all_output(), vec![0]);
    // outputs 1 if the input is less than 8, else 0 (immediate mode)
    let code = vec![3, 3, 1107, -1, 8, 3, 4, 3, 99];
    let mut computer = Computer::new(code.clone());
    computer.input(7);
    assert_eq!(computer.execute(), Ok(State::Halted));
    assert_eq!(computer.get_all_output(), vec![1]);
    let mut computer = Computer::new(code);
    computer.input(8);
    assert_eq!(computer.execute(), Ok(State::Halted));
    assert_eq!(computer.get_all_output(), vec![0]);
    // outputs 0 if the input is zero, else 1 (jumps)
    let code = vec![3, 12, 6, 12, 15, 1, 13, 14, 13, 4, 13, 99, -1, 0, 1, 9];
    let mut computer = Computer::new(code.clone());
    computer.input(0);
    assert_eq!(computer.execute(), Ok(State::Halted));
    assert_eq!(computer.get_all_output(), vec![0]);
    let mut computer = Computer::new(code);
    computer.input(-4);
    assert_eq!(computer.execute(), Ok(State::Halted));
    assert_eq!(computer.get_all_output(), vec![1]);
}

#[test]
fn computer_arithmetic_wraps() {
    let mut computer = Computer::new(vec![1101, i64::MAX, 1, 0, 1102, i64::MAX, 2, 1, 99]);
    assert_eq!(computer.execute(), Ok(State::Halted));
    assert_eq!(computer.get(0), Ok(i64::MIN));
    assert_eq!(computer.get(1), Ok(-2));
}

#[test]
fn computer_parses_programs() {
    assert_eq!(parse_input("1,-2,+3,0004"), Some(vec![1, -2, 3, 4]));
    assert_eq!(parse_input("9223372036854775807,-9223372036854775808"), Some(vec![i64::MAX, i64::MIN]));
    assert_eq!(parse_input("7"), Some(vec![7]));
    assert_eq!(parse_input(""), None);
    assert_eq!(parse_input("1,,2"), None);
    assert_eq!(parse_input("1,2,"), None);
    assert_eq!(parse_input("1, 2"), None);
    assert_eq!(parse_input("1,2\n"), None);
    assert_eq!(parse_input("1,-,2"), None);
    assert_eq!(parse_input("1,x"), None);
    assert_eq!(parse_input("9223372036854775808"), None);
    assert_eq!(parse_input("-9223372036854775809"), None);
}

#[test]
fn computer_step_budget() {
    assert_eq!(STEP_BUDGET, u64::MAX);
}
