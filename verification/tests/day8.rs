use aoc2019::day8::{generator_input, part_one, part_two, solve_part_one, solve_part_two, LayerInfo};
use std::cmp::Ordering;

#[test]
fn day8_part_one() {
    assert_eq!(solve_part_one(&[1, 2, 1, 0, 0, 0, 0, 0, 0, 0, 1, 2], 3, 2), Some(2));
}

#[test]
fn day8_shows_through() {
    assert_eq!(
        solve_part_two(&[0, 2, 2, 2, 1, 1, 2, 2, 2, 2, 1, 2, 0, 0, 0, 0], 2, 2),
        Some("\n *\n* \n".to_string())
    );
    // an incomplete last layer, and a place that stays 2
    assert_eq!(solve_part_two(&[2, 2, 2, 1, 1], 3, 1), Some("\n** \n".to_string()));
    assert_eq!(solve_part_two(&[], 2, 1), Some("\n  \n".to_string()));
    assert_eq!(solve_part_two(&[1, 1], 0, 2), None);
    assert_eq!(solve_part_two(&[1, 1], usize::MAX, 2), None);
}

#[test]
fn day8_layers() {
    let a = LayerInfo::from(&[0, 1, 1, 2, 2, 2]).unwrap();
    assert_eq!(a, LayerInfo { zeroes: 1, ones: 2, twos: 3 });
    assert_eq!(a.checksum(), Some(6));
    let b = LayerInfo::from(&[0, 0]).unwrap();
    assert_eq!(LayerInfo::compare(&a, &b), Ordering::Less);
    assert_eq!(LayerInfo::compare(&b, &a), Ordering::Greater);
    assert_eq!(LayerInfo::compare(&a, &a), Ordering::Equal);
    assert_eq!(LayerInfo::from(&[0, 3]), None);
    assert_eq!(LayerInfo { zeroes: 0, ones: usize::MAX, twos: 2 }.checksum(), None);
}

#[test]
fn day8_checks() {
    // of layers with as few zeros, the first counts
    assert_eq!(solve_part_one(&[0, 1, 2, 2, 0, 1, 1, 2], 2, 2), Some(2));
    assert_eq!(solve_part_one(&[0, 0, 2, 2, 0, 1, 1, 2], 2, 2), Some(2));
    // the last layer is incomplete
    assert_eq!(solve_part_one(&[0, 1, 2, 1, 2], 3, 1), Some(1));
    assert_eq!(solve_part_one(&[], 3, 1), None);
    assert_eq!(solve_part_one(&[1, 2], 0, 1), None);
    assert_eq!(solve_part_one(&[1, 2, 0, 5], 2, 1), None);
    let input = generator_input("0222112222120000").unwrap();
    assert_eq!(input.len(), 16);
    assert_eq!(part_one(&input), Some(24));
    assert_eq!(part_two(&input).unwrap().len(), 1 + 6 * 26);
    assert_eq!(generator_input("01x"), None);
    assert_eq!(generator_input(""), Some(vec![]));
}
