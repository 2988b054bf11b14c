use aoc2019::day10::{find_best_asteroid, identifier, input_generator, part_one, visible_from};

#[test]
fn day10_part_one() {
    let input = "......#.#.\n#..#.#....\n..#######.\n.#.#.###..\n.#..#.....\n..#....#.#\n#..#....#.\n.##.#..###\n##...#..#.\n.#....####";
    let input = input_generator(input).unwrap();
    assert_eq!(part_one(&input), Some(33));

    let input = "#.#...#.#.\n.###....#.\n.#....#...\n##.#.#.#.#\n....#.#.#.\n.##..###.#\n..#...##..\n..##....##\n......#...\n.####.###.";
    let input = input_generator(input).unwrap();
    assert_eq!(part_one(&input), Some(35));

    let input = ".#..#..###\n####.###.#\n....###.#.\n..###.##.#\n##.##.#.#.\n....###..#\n..#.#..#.#\n#..#.#.###\n.##...##.#\n.....#.#..";
    let input = input_generator(input).unwrap();
    assert_eq!(part_one(&input), Some(41));

    let input = ".#..##.###...#######\n##.############..##.\n.#.######.########.#\n.###.#######.####.#.\n#####.##.#.##.###.##\n..#####..#.#########\n####################\n#.####....###.#.#.##\n##.#################\n#####.##.###..####..\n..######..##.#######\n####.##.####...##..#\n.#####..#.######.###\n##...#.##########...\n#.##########.#######\n.####.#.###.###.#.##\n....##.##.###..#####\n.#.#.###########.###\n#.#.#.#####.####.###\n###.##.####.##.#..##";
    let input = input_generator(input).unwrap();
    assert_eq!(part_one(&input), Some(210));
}

#[test]
fn day10_reads_the_grid() {
    assert_eq!(input_generator(".#..#\n.....\n#####"), Some(vec![(1, 0), (4, 0), (0, 2), (1, 2), (2, 2), (3, 2), (4, 2)]));
    assert_eq!(input_generator(""), Some(vec![]));
    assert_eq!(input_generator("x#\n\n#"), Some(vec![(1, 0), (0, 2)]));
}

#[test]
fn day10_marks() {
    assert_eq!(identifier(&(0, 0), &(0, 0)), None);
    // to the right
    assert_eq!(identifier(&(0, 0), &(3, 0)), Some((1, 0)));
    assert_eq!(identifier(&(0, 0), &(1, 0)), Some((1, 0)));
    // greater both
    assert_eq!(identifier(&(0, 0), &(3, 1)), Some((1, 333000)));
    assert_eq!(identifier(&(0, 0), &(6, 2)), Some((1, 333000)));
    assert_eq!(identifier(&(0, 0), &(1, 3)), Some((1, 3000000)));
    // lesser second coordinate
    assert_eq!(identifier(&(0, 0), &(0, -2)), Some((2, 0)));
    assert_eq!(identifier(&(0, 0), &(3, -1)), Some((2, 3000000)));
    // greater second, not greater first
    assert_eq!(identifier(&(0, 0), &(0, 5)), Some((4, 0)));
    assert_eq!(identifier(&(0, 0), &(-3, 2)), Some((4, 1500000)));
    // the rest
    assert_eq!(identifier(&(0, 0), &(-3, 0)), Some((3, 0)));
    assert_eq!(identifier(&(0, 0), &(-3, -1)), Some((3, 333000)));
    assert_eq!(identifier(&(5, 5), &(2, 4)), Some((3, 333000)));
    // the largest distances there are
    assert_eq!(
        identifier(&(i32::MIN, i32::MIN), &(i32::MAX, i32::MAX)),
        Some((1, 1000000))
    );
    assert_eq!(
        identifier(&(i32::MIN, 0), &(i32::MAX, -1)),
        Some((2, 4294967295000000))
    );
}

#[test]
fn day10_best() {
    let input = input_generator(".#..#\n.....\n#####\n....#\n...##").unwrap();
    assert_eq!(visible_from(&input, &(3, 4)), 8);
    assert_eq!(visible_from(&input, &(1, 0)), 7);
    assert_eq!(visible_from(&input, &(4, 2)), 5);
    // a place without an asteroid sees them too
    assert_eq!(visible_from(&input, &(0, 0)), 8);
    assert_eq!(find_best_asteroid(&input), Some(((3, 4), 8)));
    assert_eq!(find_best_asteroid(&[]), None);
    assert_eq!(part_one(&[]), None);
    assert_eq!(find_best_asteroid(&[(7, 7)]), Some(((7, 7), 0)));
    // of those that see as many, the last
    assert_eq!(find_best_asteroid(&[(0, 0), (1, 0), (2, 0)]), Some(((1, 0), 2)));
    assert_eq!(find_best_asteroid(&[(0, 0), (1, 0)]), Some(((1, 0), 1)));
    // an asteroid twice in the list is not seen from itself
    assert_eq!(find_best_asteroid(&[(0, 0), (0, 0)]), Some(((0, 0), 0)));
}
