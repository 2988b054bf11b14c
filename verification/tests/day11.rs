use aoc2019::day11::{
    input_generator, part_one, part_two, white_panels, PaintingRobot,
};
use aoc2019::grid::{bounds, key, panel, render};
use aoc2019::intcode_computer::Computer;
use std::collections::HashMap;

#[test]
fn day11_part_one() {
    let mut map: HashMap<u64, i64> = Default::default();
    let mut robot = PaintingRobot {
        computer: Computer::new(vec![]),
        direction: 0,
        position: (0, 0),
        painted: Default::default(),
    };

    robot.step(&mut map, 1, 0);
    assert_eq!(robot.painted.len(), 1);
    assert_eq!(robot.direction, 3);
    assert_eq!(robot.position, (-1, 0));
    robot.step(&mut map, 0, 0);
    assert_eq!(robot.painted.len(), 1);
    assert_eq!(robot.direction, 2);
    assert_eq!(robot.position, (-1, -1));
    robot.step(&mut map, 1, 0);
    assert_eq!(robot.painted.len(), 2);
    assert_eq!(robot.direction, 1);
    assert_eq!(robot.position, (0, -1));
    robot.step(&mut map, 1, 0);
    assert_eq!(robot.painted.len(), 3);
    assert_eq!(robot.direction, 0);
    assert_eq!(robot.position, (0, 0));
}

#[test]
fn day11_keys() {
    assert_eq!(key((i32::MIN, i32::MIN)), 0);
    assert_eq!(key((0, 0)), 0x8000_0000_8000_0000);
    assert_eq!(key((1, -1)), 0x8000_0001_7fff_ffff);
    assert_eq!(key((i32::MAX, i32::MAX)), u64::MAX);
    assert_eq!(panel(0x8000_0001_7fff_ffff), (1, -1));
    assert_eq!(panel(key((-7, 12))), (-7, 12));
}

#[test]
fn day11_repainting() {
    let mut map: HashMap<u64, i64> = Default::default();
    let mut robot = PaintingRobot {
        computer: Computer::new(vec![]),
        direction: 1,
        position: (5, 5),
        painted: Default::default(),
    };
    // black on a panel that is not in the map changes nothing
    robot.step(&mut map, 0, 1);
    assert_eq!(robot.painted.len(), 0);
    assert_eq!(map.get(&key((5, 5))), Some(&0));
    assert_eq!(robot.direction, 2);
    assert_eq!(robot.position, (5, 4));
    // a turn of 2 is half a turn
    robot.step(&mut map, 1, 2);
    assert_eq!(robot.direction, 0);
    assert_eq!(robot.position, (5, 5));
    // white on black changes the panel
    robot.step(&mut map, 1, 2);
    assert!(robot.painted.contains(&key((5, 5))));
    assert_eq!(robot.painted.len(), 2);
    assert_eq!(robot.position, (5, 4));
    // the same colour again changes nothing
    robot.step(&mut map, 1, 2);
    assert_eq!(robot.painted.len(), 2);
    // coordinates wrap around
    let mut robot = PaintingRobot {
        computer: Computer::new(vec![]),
        direction: 0,
        position: (0, i32::MAX),
        painted: Default::default(),
    };
    robot.step(&mut map, 1, 4);
    assert_eq!(robot.position, (0, i32::MIN));
}

#[test]
fn day11_tour() {
    // Paints white and turns left, twice, then halts.
    let code = input_generator("3,100,104,1,104,0,3,100,104,1,104,0,99").unwrap();
    assert_eq!(part_one(&code), Some(2));
    assert_eq!(part_two(&code), Some("\u{2588}\n\u{2588}\n".to_string()));
    // Paints what it sees and turns right, three times.
    let code =
        input_generator("3,100,4,100,104,1,3,100,4,100,104,1,3,100,4,100,104,1,99").unwrap();
    assert_eq!(part_one(&code), Some(0));
    assert_eq!(part_two(&code), Some("\u{2588}\n".to_string()));
    // Breaks off: one answer only.
    let code = input_generator("3,100,104,1,99").unwrap();
    assert_eq!(part_one(&code), None);
    assert_eq!(part_two(&code), None);
    // Breaks off: a fault.
    let code = input_generator("3,100,104,1,104,0,4,5000,99").unwrap();
    assert_eq!(part_one(&code), None);
}

#[test]
fn day11_pictures() {
    let mut map: HashMap<u64, i64> = Default::default();
    map.insert(key((-1, 1)), 1);
    map.insert(key((1, 0)), 1);
    map.insert(key((1, 2)), 0);
    map.insert(key((0, -1)), 2);
    let white = white_panels(&map);
    assert_eq!(white.len(), 2);
    assert_eq!(bounds(&white), (-1, 1, 0, 1));
    assert_eq!(render(&white, "#", (-1, 1, 0, 1)), " #\n  \n# \n");
    assert_eq!(render(&white, "#", (1, 1, -1, 2)), " #  \n");
    // ink of any length, and bounds that hold nothing
    assert_eq!(render(&white, "[]", (-1, 0, 1, 1)), "[]\n \n");
    assert_eq!(render(&white, "", (-1, 0, 1, 1)), "\n \n");
    assert_eq!(render(&white, "#", (0, 1, 1, 0)), "\n\n");
    assert_eq!(render(&white, "#", (1, 0, 0, 1)), "");
}
