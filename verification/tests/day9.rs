use aoc2019::day9::{input_generator, part_one, part_two, MEMORY};

#[test]
fn day9_boost() {
    assert_eq!(MEMORY, 1500);
    // writes its input far behind the program and reads it back
    let far = input_generator("3,1400,4,1400,99").unwrap();
    assert_eq!(part_one(&far), Some(1));
    assert_eq!(part_two(&far), Some(2));
    // beyond the memory
    let too_far = input_generator("3,1500,4,1500,99").unwrap();
    assert_eq!(part_one(&too_far), None);
    // the first output counts
    let two = input_generator("104,7,3,0,4,0,99").unwrap();
    assert_eq!(part_two(&two), Some(7));
    let big = input_generator("1102,34915192,34915192,7,4,7,99,0").unwrap();
    assert_eq!(part_one(&big), Some(1219070632396864));
    assert_eq!(part_one(&[99]), None);
}
