use aoc2019::day3::{
    generator_input, part_one, part_two, populate_line, CollisionChecker, Instruction,
    InstructionParseError, Node,
};

#[test]
fn day3_part_one() {
    let generated = generator_input("R8,U5,L5,D3\nU7,R6,D4,L4").expect("Failed to parse");
    assert_eq!(part_one(&generated), Some(6));

    let generated =
        generator_input("R75,D30,R83,U83,L12,D49,R71,U7,L72\nU62,R66,U55,R34,D71,R55,D58,R83")
            .expect("Failed to parse");
    assert_eq!(part_one(&generated), Some(159));

    let generated = generator_input(
        "R98,U47,R26,D63,R33,U87,L62,D20,R33,U53,R51\nU98,R91,D20,R16,D67,R40,U7,R15,U6,R7",
    )
    .expect("Failed to parse");
    assert_eq!(part_one(&generated), Some(135));
}

#[test]
fn day3_part_two() {
    let generated = generator_input("R8,U5,L5,D3\nU7,R6,D4,L4").expect("Failed to parse");
    assert_eq!(part_two(&generated), Some(30));

    let generated =
        generator_input("R75,D30,R83,U83,L12,D49,R71,U7,L72\nU62,R66,U55,R34,D71,R55,D58,R83")
            .expect("Failed to parse");
    assert_eq!(part_two(&generated), Some(610));

    let generated = generator_input(
        "R98,U47,R26,D63,R33,U87,L62,D20,R33,U53,R51\nU98,R91,D20,R16,D67,R40,U7,R15,U6,R7",
    )
    .expect("Failed to parse");
    assert_eq!(part_two(&generated), Some(410));
}

#[test]
fn day3_instructions() {
    assert_eq!(Instruction::from_str("R8"), Ok(Instruction::Right(8)));
    assert_eq!(Instruction::from_str("D30"), Ok(Instruction::Down(30)));
    assert_eq!(Instruction::from_str("L+5"), Ok(Instruction::Left(5)));
    assert_eq!(Instruction::from_str("U4294967295"), Ok(Instruction::Up(4294967295)));
    assert_eq!(Instruction::from_str("U4294967296"), Err(InstructionParseError::IntError));
    assert_eq!(Instruction::from_str("U"), Err(InstructionParseError::IntError));
    assert_eq!(Instruction::from_str(""), Err(InstructionParseError::IntError));
    assert_eq!(Instruction::from_str("U-1"), Err(InstructionParseError::IntError));
    assert_eq!(Instruction::from_str("X12"), Err(InstructionParseError::WrongIdent('X')));
    assert_eq!(Instruction::from_str("Xx"), Err(InstructionParseError::IntError));
    assert_eq!(Instruction::Right(8).get_distance(), 8);
    assert_eq!(Instruction::Down(7).get_distance(), 7);
    assert_eq!(Instruction::Left(6).get_distance(), 6);
    assert_eq!(Instruction::Up(5).get_distance(), 5);
    assert_eq!(
        generator_input("R8,U5\nL1"),
        Ok(vec![vec![Instruction::Right(8), Instruction::Up(5)], vec![Instruction::Left(1)]])
    );
    assert_eq!(generator_input(""), Ok(vec![]));
    assert_eq!(generator_input("R8,Q5\nL"), Err(InstructionParseError::WrongIdent('Q')));
    assert_eq!(generator_input("R8\nL\nQ1"), Err(InstructionParseError::IntError));
}

#[test]
fn day3_collisions() {
    let node = Node::new((1, 2), 3);
    assert_eq!(node.position, (1, 2));
    assert_eq!(node.steps, 3);
    let mut cc = CollisionChecker::new();
    assert_eq!(cc.collisions(), vec![]);
    cc.follow_line(&Instruction::Right(3), 1);
    cc.follow_line(&Instruction::Up(1), 1);
    cc.follow_line(&Instruction::Left(1), 1);
    cc.follow_line(&Instruction::Down(1), 1);
    cc.restart();
    cc.follow_line(&Instruction::Up(1), 2);
    cc.follow_line(&Instruction::Right(2), 2);
    cc.follow_line(&Instruction::Down(1), 2);
    let mut all = cc.collisions();
    all.sort_by_key(|node| node.position);
    // the first wire comes back to (2, 0): its first visit counts
    assert_eq!(all.len(), 2);
    assert_eq!((all[0].position, all[0].steps), ((2, 0), 2));
    assert_eq!((all[1].position, all[1].steps), ((2, 1), 5));
    // nodes are compared by their places alone
    assert_eq!(all[0], Node::new((2, 0), 99));
    assert_ne!(all[0], Node::new((2, 1), 2));
    assert_eq!(cc.combined_steps((2, 0)), Some(2 + 4));
    assert_eq!(cc.combined_steps((2, 1)), Some(5 + 3));
    assert_eq!(cc.combined_steps((1, 0)), None);
    assert_eq!(cc.combined_steps((0, 1)), None);
}

#[test]
fn day3_no_crossing() {
    let wires = vec![vec![Instruction::Right(3)], vec![Instruction::Left(3)]];
    assert_eq!(part_one(&wires), None);
    assert_eq!(part_two(&wires), None);
    assert_eq!(part_one(&wires[..1]), None);
    assert_eq!(part_two(&[]), None);
    let mut cc = CollisionChecker::new();
    populate_line(&mut cc, &wires[0], 1);
    populate_line(&mut cc, &wires[0], 2);
    assert_eq!(cc.collisions().len(), 3);
}
