use aoc2019::day6::{
    calc_dist, calc_weight, chart, input_generator, part_one, part_two, weigh, OrbitRelation,
};

#[test]
fn day6_part_one() {
    let input =
        input_generator("COM)B\nB)C\nC)D\nD)E\nE)F\nB)G\nG)H\nD)I\nE)J\nJ)K\nK)L").unwrap();
    assert_eq!(part_one(&input), Some(42));
}

#[test]
fn day6_part_two() {
    let input =
        input_generator("COM)B\nB)C\nC)D\nD)E\nE)F\nB)G\nG)H\nD)I\nE)J\nJ)K\nK)L\nK)YOU\nI)SAN")
            .unwrap();
    assert_eq!(part_two(&input), Some(4));
}

#[test]
fn day6_orbits() {
    assert_eq!(
        OrbitRelation::from_str("COM)B"),
        Some(OrbitRelation { ident: "B".to_string(), parent: "COM".to_string() })
    );
    assert_eq!(
        OrbitRelation::from_str("A)B)C"),
        Some(OrbitRelation { ident: "B".to_string(), parent: "A".to_string() })
    );
    assert_eq!(
        OrbitRelation::from_str(")"),
        Some(OrbitRelation { ident: "".to_string(), parent: "".to_string() })
    );
    assert_eq!(OrbitRelation::from_str("COM"), None);
    assert_eq!(input_generator("COM)B\nB"), None);
    assert_eq!(input_generator(""), Some(vec![]));
}

#[test]
fn day6_charts() {
    let input = input_generator("COM)B\nB)C\nCOM)D").unwrap();
    let (names, map) = chart(&input, false);
    assert_eq!(names, vec!["COM", "B", "C", "D"]);
    assert_eq!(map, vec![vec![1, 3], vec![2], vec![], vec![]]);
    let (names, map) = chart(&input, true);
    assert_eq!(names, vec!["COM", "B", "C", "D"]);
    assert_eq!(map, vec![vec![1, 3], vec![0, 2], vec![1], vec![0]]);
}

#[test]
fn day6_weights() {
    let map = vec![vec![1, 3], vec![2], vec![], vec![]];
    // B and D at depth 1, C at depth 2
    assert_eq!(calc_weight(&map, 0, 0), Some(4));
    assert_eq!(calc_weight(&map, 1, 0), Some(1));
    assert_eq!(calc_weight(&map, 1, 5), Some(11));
    assert_eq!(calc_weight(&map, 2, 7), Some(7));
    // an object without a list
    assert_eq!(calc_weight(&map, 9, 7), Some(7));
    // an object that orbits itself
    assert_eq!(calc_weight(&vec![vec![0]], 0, 0), None);
    assert_eq!(calc_weight(&vec![vec![1], vec![0]], 0, 0), None);
    // a count that does not fit
    assert_eq!(calc_weight(&map, 0, u32::MAX), None);
    assert_eq!(calc_weight(&map, 2, u32::MAX), Some(u32::MAX));
    // the depth is limited
    assert_eq!(weigh(&map, 0, 0, 3), Some(4));
    assert_eq!(weigh(&map, 0, 0, 2), None);
    assert_eq!(weigh(&map, 0, 0, 0), None);
    // without COM nothing is counted
    let input = input_generator("A)B\nB)C").unwrap();
    assert_eq!(part_one(&input), Some(0));
}

#[test]
fn day6_distances() {
    let input = input_generator("COM)B\nB)C\nC)D\nB)E\nX)Y").unwrap();
    let d = "D".to_string();
    let e = "E".to_string();
    let y = "Y".to_string();
    let z = "Z".to_string();
    assert_eq!(calc_dist(&input, &d, &e), Some(4));
    assert_eq!(calc_dist(&input, &e, &d), Some(4));
    assert_eq!(calc_dist(&input, &d, &d), Some(1));
    assert_eq!(calc_dist(&input, &d, &y), None);
    assert_eq!(calc_dist(&input, &d, &z), None);
    assert_eq!(calc_dist(&input, &z, &z), None);
    // YOU and SAN orbit the same object
    let input = input_generator("COM)YOU\nCOM)SAN").unwrap();
    assert_eq!(part_two(&input), Some(0));
    // YOU orbits SAN: the way has two objects
    let input = input_generator("SAN)YOU").unwrap();
    assert_eq!(part_two(&input), None);
    let input = input_generator("COM)YOU").unwrap();
    assert_eq!(part_two(&input), None);
}
