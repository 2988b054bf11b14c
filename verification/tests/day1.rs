use aoc2019::day1::{calc_mass, calc_total_mass, generator_input, part_one, part_two};

#[test]
fn day1_mass() {
    assert_eq!(calc_mass(&12), 2);
    assert_eq!(calc_mass(&14), 2);
    assert_eq!(calc_mass(&1969), 654);
    assert_eq!(calc_mass(&100756), 33583);
}

#[test]
fn day1_total_mass() {
    assert_eq!(calc_total_mass(&14), 2);
    assert_eq!(calc_total_mass(&1969), 966);
    assert_eq!(calc_total_mass(&100756), 50346);
}

#[test]
fn day1_small_and_negative_masses() {
    assert_eq!(calc_mass(&0), -2);
    assert_eq!(calc_mass(&-7), -4);
    assert_eq!(calc_mass(&i32::MIN), -715827884);
    assert_eq!(calc_total_mass(&8), 0);
    assert_eq!(calc_total_mass(&9), 1);
    assert_eq!(calc_total_mass(&-100), 0);
    assert_eq!(calc_total_mass(&i32::MAX), 1073741757);
}

#[test]
fn day1_parts() {
    let masses = generator_input("12\n14\n1969\n100756\n").unwrap();
    assert_eq!(masses, vec![12, 14, 1969, 100756]);
    assert_eq!(part_one(&masses), Some(2 + 2 + 654 + 33583));
    assert_eq!(part_two(&masses), Some(2 + 2 + 966 + 50346));
    assert_eq!(part_one(&[]), Some(0));
    assert_eq!(part_one(&[i32::MAX; 4]), None);
    assert_eq!(part_two(&[i32::MAX; 3]), None);
    assert_eq!(part_one(&[0, 0]), Some(-4));
}

#[test]
fn day1_input() {
    assert_eq!(generator_input(""), Some(vec![]));
    assert_eq!(generator_input("5"), Some(vec![5]));
    assert_eq!(generator_input("5\n-6"), Some(vec![5, -6]));
    assert_eq!(generator_input("5\n\n6"), None);
    assert_eq!(generator_input("5\nsix"), None);
    assert_eq!(generator_input("2147483648"), None);
}
