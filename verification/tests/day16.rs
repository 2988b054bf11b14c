use aoc2019::day16::{fft_phase, input_generator, part_one, part_two};

#[test]
fn day16_part_two() {
    let input = "03036732577212944063491565474664";
    let input = input_generator(input).unwrap();
    assert_eq!(part_two(&input), Some("84462026".to_string()));
}

#[test]
fn day16_phases() {
    let input = input_generator("12345678").unwrap();
    let one = fft_phase(input);
    assert_eq!(one, vec![4, 8, 2, 2, 6, 1, 5, 8]);
    let two = fft_phase(one);
    assert_eq!(two, vec![3, 4, 0, 4, 0, 4, 3, 8]);
    assert_eq!(fft_phase(vec![]), vec![]);
    assert_eq!(fft_phase(vec![-17]), vec![7]);
    assert_eq!(fft_phase(vec![i32::MAX, i32::MAX, i32::MIN]), vec![5, 1, 8]);
}

#[test]
fn day16_part_one() {
    let input = input_generator("80871224585914546619083218645595").unwrap();
    assert_eq!(part_one(&input), "24176176");
    let input = input_generator("19617804207202209144916044189917").unwrap();
    assert_eq!(part_one(&input), "73745418");
    let input = input_generator("69317163492948606335995924319873").unwrap();
    assert_eq!(part_one(&input), "52432133");
    assert_eq!(part_one(&[]), "");
    assert_eq!(part_one(&[7, 3]), "73");
    assert_eq!(part_one(&[1, 2, 3]), "123");
}

#[test]
fn day16_messages() {
    let input = input_generator("02935109699940807407585447034323").unwrap();
    assert_eq!(part_two(&input), Some("78725270".to_string()));
    let input = input_generator("03081770884921959731165446850517").unwrap();
    assert_eq!(part_two(&input), Some("53553731".to_string()));
    // too short for an offset
    assert_eq!(part_two(&[1, 2, 3, 4, 5, 6]), None);
    // the offset lies behind the repeated signal
    let input = input_generator("9999999").unwrap();
    assert_eq!(part_two(&input), None);
    // an element that is no digit
    assert_eq!(part_two(&[0, 0, 0, 0, 0, 0, 0, 12]), None);
    assert_eq!(input_generator("12a"), None);
    // the last eight elements of the repeated signal stay as they are but for the sums
    let input = input_generator("0069992").unwrap();
    assert_eq!(part_two(&input).map(|text| text.len()), Some(8));
}
