use aoc2019::day5::{generator_input, part_one, part_two};

#[test]
fn day5_diagnostics() {
    // echoes its input
    let echo = generator_input("3,0,4,0,99").unwrap();
    assert_eq!(part_one(&echo), Some(1));
    assert_eq!(part_two(&echo), Some(5));
    // the last output counts
    let two = generator_input("104,7,3,0,4,0,99").unwrap();
    assert_eq!(part_one(&two), Some(1));
    // no output
    assert_eq!(part_one(&[99]), None);
    // a fault
    assert_eq!(part_one(&[3, 0, 4, 9, 99]), None);
    // wants more input than there is
    assert_eq!(part_two(&[3, 0, 3, 0, 4, 0, 99]), None);
    assert_eq!(generator_input("3,0,4,0,99,"), None);
}
