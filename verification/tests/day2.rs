use aoc2019::day2::{generator_input, part_one, part_two, Program};

#[test]
fn day2_part_one() {
    let mut program = Program::new(vec![1, 9, 10, 3, 2, 3, 11, 0, 99, 30, 40, 50]);
    assert!(program.next());
    assert_eq!(program.pointer(), 4);
    assert_eq!(program.data(), &vec![1, 9, 10, 70, 2, 3, 11, 0, 99, 30, 40, 50]);
    assert!(program.next());
    assert_eq!(program.data(), &vec![3500, 9, 10, 70, 2, 3, 11, 0, 99, 30, 40, 50]);
    assert!(!program.next());
}

#[test]
fn day2_stops_where_it_cannot_go_on() {
    let mut program = Program::new(vec![99]);
    assert!(!program.next());
    let mut program = Program::new(vec![1, 0, 0]);
    assert!(!program.next());
    let mut program = Program::new(vec![1, 0, 0, 4]);
    assert!(!program.next());
    let mut program = Program::new(vec![1, -1, 0, 0]);
    assert!(!program.next());
    let mut program = Program::new(vec![3, 0, 0, 0]);
    assert!(!program.next());
    assert_eq!(program.pointer(), 0);
    let mut program = Program::new(vec![2, 0, 0, 0, 1, 0, 0, 0]);
    assert!(program.next());
    assert!(program.next());
    assert!(!program.next());
    assert_eq!(program.pointer(), 8);
    assert_eq!(program.data(), &vec![8, 0, 0, 0, 1, 0, 0, 0]);
}

#[test]
fn day2_arithmetic_wraps() {
    let mut program = Program::new(vec![1, 4, 4, 0, i32::MAX]);
    assert!(program.next());
    assert_eq!(program.data()[0], -2);
    let mut program = Program::new(vec![2, 4, 4, 0, 65536]);
    assert!(program.next());
    assert_eq!(program.data()[0], 0);
}

#[test]
fn day2_solve_for() {
    let mut program = Program::new(vec![1, 0, 0, 0, 99]);
    assert_eq!(program.solve_for(4, 4), Some(198));
    assert_eq!(program.data(), &vec![198, 4, 4, 0, 99]);
    let mut program = Program::new(vec![1, 0]);
    assert_eq!(program.solve_for(4, 4), None);
    assert_eq!(program.data(), &vec![1, 0]);
    let input = generator_input("1,0,0,0,99,0,0,0,0,0,0,0,1000").unwrap();
    assert_eq!(part_one(&input), Some(1002));
    assert_eq!(part_one(&[1, 0]), None);
    assert_eq!(generator_input("1,0,x"), None);
    assert_eq!(generator_input("1,0,2147483648"), None);
}

#[test]
fn day2_part_two() {
    // The first cell becomes cell[verb] + cell[noun]: 100 + 2 for the pair (12, 2) and
    // 105 + 2 for the pair (13, 2). So c2 = 5, c1 = 13 * 102 - 12 * 107 - 2 = 40, and
    // 19690680 / 5 = 3938136 without remainder.
    let program = vec![1, 0, 0, 0, 99, 0, 0, 0, 0, 0, 0, 0, 100, 105];
    assert_eq!(part_two(&program), Some(393813600));
    // Both pairs give the same result.
    let program = vec![1, 0, 0, 0, 99, 0, 0, 0, 0, 0, 0, 0, 100, 100];
    assert_eq!(part_two(&program), None);
    assert_eq!(part_two(&[1, 0]), None);
}
