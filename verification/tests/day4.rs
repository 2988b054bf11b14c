use aoc2019::day4::{check, check_two, digits, generator_input, part_one, part_two, pass_match, pass_match_two};

#[test]
fn day4_part_one() {
    assert!(pass_match("111111"));
    assert!(!pass_match("223450"));
    assert!(!pass_match("123789"));
}

#[test]
fn day4_part_two() {
    assert!(pass_match_two("112233"));
    assert!(!pass_match_two("123444"));
    assert!(pass_match_two("111122"));
}

#[test]
fn day4_edges() {
    assert!(!pass_match(""));
    assert!(!pass_match("7"));
    assert!(pass_match("77"));
    assert!(!pass_match("7a7a"));
    assert!(!pass_match("aa"));
    assert!(!pass_match_two(""));
    assert!(pass_match_two("77"));
    assert!(!pass_match_two("777"));
    assert!(!pass_match_two("aa"));
    assert!(!pass_match_two("221"));
    assert!(check(&vec!['1', '2', '2']));
    assert!(!check_two(&vec!['2', '2', '2']));
}

#[test]
fn day4_counts() {
    assert_eq!(digits(0), vec!['0']);
    assert_eq!(digits(907), vec!['9', '0', '7']);
    assert_eq!(digits(u32::MAX), "4294967295".chars().collect::<Vec<char>>());
    assert_eq!(generator_input("10-25"), Some((10, 25)));
    assert_eq!(generator_input("10-25-7"), Some((10, 25)));
    assert_eq!(generator_input("10"), None);
    assert_eq!(generator_input("10-x"), None);
    assert_eq!(generator_input("10-25-"), None);
    // 11 and 22
    assert_eq!(part_one(&(10, 25)), 2);
    assert_eq!(part_two(&(10, 25)), 2);
    // 111 to 119 have a double; of these 112 to 119 have one that stands alone
    assert_eq!(part_one(&(110, 119)), 9);
    assert_eq!(part_two(&(110, 119)), 8);
    assert_eq!(part_one(&(25, 10)), 0);
    assert_eq!(part_one(&(11, 11)), 1);
    assert_eq!(part_two(&(u32::MAX, u32::MAX)), 0);
}
