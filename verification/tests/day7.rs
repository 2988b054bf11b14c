use aoc2019::day7::{
    best_feedback_sequence, best_sequence, input_generator, part_one, part_two, solve_sequence,
    solve_sequence_feedback,
};

#[test]
fn day7_part_one() {
    let input = input_generator("3,15,3,16,1002,16,10,16,1,16,15,15,4,15,99,0,0").unwrap();
    let sequence = vec![4, 3, 2, 1, 0];
    assert_eq!(solve_sequence(&input, sequence), Some(43210));

    let input = input_generator(
        "3,23,3,24,1002,24,10,24,1002,23,-1,23,101,5,23,23,1,24,23,23,4,23,99,0,0",
    )
    .unwrap();
    let sequence = vec![0, 1, 2, 3, 4];
    assert_eq!(solve_sequence(&input, sequence), Some(54321));

    let input = input_generator("3,31,3,32,1002,32,10,32,1001,31,-2,31,1007,31,0,33,1002,33,7,33,1,33,31,31,1,32,31,31,4,31,99,0,0,0").unwrap();
    let sequence = vec![1, 0, 4, 3, 2];
    assert_eq!(solve_sequence(&input, sequence), Some(65210));
}

#[test]
fn day7_part_two() {
    let input = input_generator("3,26,1001,26,-4,26,3,27,1002,27,2,27,1,27,26,27,4,27,1001,28,-1,28,1005,28,6,99,0,0,5").unwrap();
    let sequence = vec![9, 8, 7, 6, 5];
    assert_eq!(solve_sequence_feedback(&input, sequence), Some(139629729));

    let input = input_generator("3,52,1001,52,-5,52,3,53,1,52,56,54,1007,54,5,55,1005,55,26,1001,54,-5,54,1105,1,12,1,53,54,53,1008,54,0,55,1001,55,1,55,2,53,55,53,4,53,1001,56,-1,56,1005,56,6,99,0,0,0,0,10").unwrap();
    let sequence = vec![9, 7, 8, 5, 6];
    assert_eq!(solve_sequence_feedback(&input, sequence), Some(18216));

    let input = input_generator("3,26,1001,26,-4,26,3,27,1002,27,2,27,1,27,26,27,4,27,1001,28,-1,28,1005,28,6,99,0,0,5").unwrap();
    assert_eq!(part_two(&input), Some(139629729));

    let input = input_generator("3,52,1001,52,-5,52,3,53,1,52,56,54,1007,54,5,55,1005,55,26,1001,54,-5,54,1105,1,12,1,53,54,53,1008,54,0,55,1001,55,1,55,2,53,55,53,4,53,1001,56,-1,56,1005,56,6,99,0,0,0,0,10").unwrap();
    assert_eq!(part_two(&input), Some(18216));
}

#[test]
fn day7_best_of_all_orders() {
    let input = input_generator("3,15,3,16,1002,16,10,16,1,16,15,15,4,15,99,0,0").unwrap();
    assert_eq!(part_one(&input), Some(43210));
    let input = input_generator(
        "3,23,3,24,1002,24,10,24,1002,23,-1,23,101,5,23,23,1,24,23,23,4,23,99,0,0",
    )
    .unwrap();
    assert_eq!(part_one(&input), Some(54321));
    let input = input_generator("3,31,3,32,1002,32,10,32,1001,31,-2,31,1007,31,0,33,1002,33,7,33,1,33,31,31,1,32,31,31,4,31,99,0,0,0").unwrap();
    assert_eq!(part_one(&input), Some(65210));
}

#[test]
fn day7_best_of_given_orders() {
    let input = input_generator("3,15,3,16,1002,16,10,16,1,16,15,15,4,15,99,0,0").unwrap();
    assert_eq!(best_sequence(&input, &vec![]), None);
    assert_eq!(best_sequence(&input, &vec![vec![0, 1, 2, 3, 4]]), Some(1234));
    assert_eq!(
        best_sequence(&input, &vec![vec![0, 1, 2, 3, 4], vec![4, 3, 2, 1, 0], vec![1, 0, 2, 3, 4]]),
        Some(43210)
    );
    // one of the sequences is too short
    assert_eq!(best_sequence(&input, &vec![vec![0, 1, 2, 3, 4], vec![4, 3, 2, 1]]), None);
    // more than five settings: the first five count
    assert_eq!(best_sequence(&input, &vec![vec![4, 3, 2, 1, 0, 9, 9]]), Some(43210));
    let input = input_generator("3,26,1001,26,-4,26,3,27,1002,27,2,27,1,27,26,27,4,27,1001,28,-1,28,1005,28,6,99,0,0,5").unwrap();
    assert_eq!(best_feedback_sequence(&input, &vec![]), None);
    assert_eq!(best_feedback_sequence(&input, &vec![vec![9, 8, 7, 6, 5]]), Some(139629729));
    assert_eq!(best_feedback_sequence(&input, &vec![vec![9, 8, 7, 6]]), None);
}

#[test]
fn day7_failures() {
    // an amplifier that gives no output
    assert_eq!(solve_sequence(&[3, 0, 3, 1, 99], vec![0, 1, 2, 3, 4]), None);
    // an amplifier that does not halt
    assert_eq!(solve_sequence(&[3, 0, 3, 1, 4, 0, 3, 0, 99], vec![0, 1, 2, 3, 4]), None);
    assert_eq!(solve_sequence(&[3, 0, 3, 1, 4, 0, 99], vec![0, 1, 2, 3]), None);
    // no amplifier of the loop ever gives a signal
    assert_eq!(solve_sequence_feedback(&[3, 0, 3, 1, 99], vec![5, 6, 7, 8, 9]), None);
    // a fault in the loop
    assert_eq!(solve_sequence_feedback(&[3, 0, 3, 1, 4, 77, 99], vec![5, 6, 7, 8, 9]), None);
    // each amplifier adds its setting once, then halts
    let adder = [3, 11, 3, 12, 1, 11, 12, 12, 4, 12, 99, 0, 0];
    assert_eq!(solve_sequence_feedback(&adder, vec![5, 6, 7, 8, 9]), Some(35));
    assert_eq!(solve_sequence(&adder, vec![5, 6, 7, 8, 9]), Some(35));
    assert_eq!(input_generator("3,x"), None);
}
