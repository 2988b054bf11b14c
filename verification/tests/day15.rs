use aoc2019::day15::{chart, input_generator, inv, neighbour_node, neighbours, part_one, Explorer};
use aoc2019::graph::{distance, same_node, successors};
use aoc2019::grid::key;
use std::collections::HashSet;

#[test]
fn day15_directions() {
    assert_eq!(neighbour_node(&(3, 4), 1), (3, 5));
    assert_eq!(neighbour_node(&(3, 4), 2), (3, 3));
    assert_eq!(neighbour_node(&(3, 4), 3), (2, 4));
    assert_eq!(neighbour_node(&(3, 4), 4), (4, 4));
    assert_eq!(neighbour_node(&(i32::MAX, i32::MIN), 4), (i32::MIN, i32::MIN));
    assert_eq!(neighbour_node(&(i32::MAX, i32::MIN), 2), (i32::MAX, i32::MAX));
    assert_eq!(inv(1), 2);
    assert_eq!(inv(2), 1);
    assert_eq!(inv(3), 4);
    assert_eq!(inv(4), 3);
    assert!(same_node(&7, &7));
    assert!(!same_node(&7, &8));
}

#[test]
fn day15_neighbours() {
    let mut map: HashSet<u64> = HashSet::new();
    map.insert(key((0, 1)));
    map.insert(key((1, 0)));
    map.insert(key((5, 5)));
    assert_eq!(neighbours(&map, &(0, 0)), vec![key((0, 1)), key((1, 0))]);
    assert_eq!(neighbours(&map, &(1, 1)), vec![key((1, 0)), key((0, 1))]);
    assert_eq!(neighbours(&map, &(9, 9)), vec![]);
    let graph = chart(&map);
    assert_eq!(graph.len(), 4);
    assert_eq!(successors(&graph, &key((0, 0))), vec![key((0, 1)), key((1, 0))]);
    assert_eq!(successors(&graph, &key((5, 5))), vec![]);
    assert_eq!(successors(&graph, &key((1, 1))), vec![]);
}

#[test]
fn day15_shortest_paths() {
    let mut map: HashSet<u64> = HashSet::new();
    // a ring around the place (1, 1), and a dead end
    for place in [(0, 1), (0, 2), (1, 2), (2, 2), (2, 1), (2, 0), (1, 0), (3, 0), (7, 7)] {
        map.insert(key(place));
    }
    let graph = chart(&map);
    assert_eq!(distance(&graph, key((0, 0)), key((0, 0))), Some(1));
    assert_eq!(distance(&graph, key((0, 0)), key((0, 1))), Some(2));
    assert_eq!(distance(&graph, key((0, 0)), key((2, 2))), Some(5));
    assert_eq!(distance(&graph, key((0, 0)), key((3, 0))), Some(4));
    assert_eq!(distance(&graph, key((0, 0)), key((2, 1))), Some(4));
    assert_eq!(distance(&graph, key((0, 0)), key((1, 1))), None);
    assert_eq!(distance(&graph, key((0, 0)), key((7, 7))), None);
    // the place (0, 0) can be left, but it is not in the map: nothing leads back to it
    assert_eq!(distance(&graph, key((0, 1)), key((0, 0))), None);
}

#[test]
fn day15_finds_the_oxygen() {
    // Answers 1 (moved) to the first move and 2 (found) to the second.
    let code = input_generator("3,9,104,1,3,9,104,2,99,0").unwrap();
    let mut explorer = Explorer::new(&code);
    assert_eq!(explorer.position(), (0, 0));
    assert_eq!(explorer.oxygen(), None);
    assert_eq!(explorer.step_to_oxygen(), None);
    assert!(explorer.explore_all());
    assert_eq!(explorer.position(), (0, 1));
    assert_eq!(explorer.oxygen(), Some((0, 2)));
    assert_eq!(explorer.step_to_oxygen(), Some(3));
    assert_eq!(explorer.viz(), " **\n");
    assert_eq!(part_one(&code), Some(3));
}

#[test]
fn day15_walls() {
    // A wall to the north, then the oxygen to the south.
    let code = input_generator("3,9,104,0,3,9,104,2,99,0").unwrap();
    let mut explorer = Explorer::new(&code);
    assert!(explorer.explore_all());
    assert_eq!(explorer.position(), (0, 0));
    assert_eq!(explorer.oxygen(), Some((0, -1)));
    assert_eq!(explorer.step_to_oxygen(), Some(2));
    assert_eq!(explorer.viz(), "* *\n");
}

#[test]
fn day15_breaks_off() {
    // The machine halts without an answer.
    let mut explorer = Explorer::new(&[3, 3, 99, 0]);
    assert!(!explorer.explore_all());
    assert_eq!(explorer.oxygen(), None);
    assert_eq!(part_one(&[3, 3, 99, 0]), None);
    // A fault.
    assert_eq!(part_one(&[3, 5, 4, 5000, 99, 0]), None);
}
