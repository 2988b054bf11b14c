use aoc2019::day12::{gcd, input_generator, lcm, part_one, part_two, Moon, Vec3};

#[test]
fn day12_parse_vec3() {
    let vec = Vec3::from_str("<x=5, y=13, z=-3>").expect("Failed to parse Vec3");
    assert_eq!(vec.x, 5);
    assert_eq!(vec.y, 13);
    assert_eq!(vec.z, -3);
}

#[test]
fn day12_part_two() {
    let input = "<x=-1, y=0, z=2>\n<x=2, y=-10, z=-7>\n<x=4, y=-8, z=8>\n<x=3, y=5, z=-1>";
    let pos = input_generator(input).unwrap();
    assert_eq!(part_two(&pos), Some(2772));
}

#[test]
fn day12_refuses() {
    assert_eq!(Vec3::from_str("<x=5, y=13, z=-3"), None);
    assert_eq!(Vec3::from_str("x=5, y=13, z=-3>"), None);
    assert_eq!(Vec3::from_str("<x=5,y=13, z=-3>"), None);
    assert_eq!(Vec3::from_str("<x=5, y=13>"), None);
    assert_eq!(Vec3::from_str("<x=5, y=13, z=-3, w=1>"), None);
    assert_eq!(Vec3::from_str("<x=, y=13, z=-3>"), None);
    assert_eq!(Vec3::from_str("<x=+5, y=13, z=-3>"), None);
    assert_eq!(Vec3::from_str("<x=5, y=13, z=2147483648>"), None);
    assert_eq!(Vec3::from_str(" <x=5, y=13, z=-3>"), None);
    assert_eq!(
        Vec3::from_str("<x=-2147483648, y=007, z=-0>"),
        Some(Vec3 { x: i32::MIN, y: 7, z: 0 })
    );
    assert_eq!(input_generator("<x=1, y=2, z=3>\nfoo"), None);
    assert_eq!(input_generator(""), Some(vec![]));
}

#[test]
fn day12_vectors() {
    assert_eq!(Vec3::new(), Vec3 { x: 0, y: 0, z: 0 });
    assert_eq!(Vec3 { x: -1, y: 2, z: -3 }.sum(), 6);
    assert_eq!(Vec3 { x: i32::MIN, y: i32::MIN, z: i32::MAX }.sum(), 6442450943);
    let mut v = Vec3 { x: 1, y: 2, z: i32::MAX };
    v.add(&Vec3 { x: 10, y: -20, z: 1 });
    assert_eq!(v, Vec3 { x: 11, y: -18, z: i32::MIN });
}

#[test]
fn day12_moons() {
    let ganymede = Moon::new_from_pos(Vec3 { x: 3, y: 0, z: 0 });
    let callisto = Moon::new_from_pos(Vec3 { x: 5, y: 0, z: -2 });
    assert_eq!(ganymede.vel, Vec3::new());
    assert_eq!(ganymede.delta_vel(&[ganymede, callisto]), Vec3 { x: 1, y: 0, z: -1 });
    assert_eq!(callisto.delta_vel(&[ganymede, callisto]), Vec3 { x: -1, y: 0, z: 1 });
    assert_eq!(callisto.delta_vel(&[]), Vec3::new());
    let mut moon = Moon { pos: Vec3 { x: 1, y: 2, z: 3 }, vel: Vec3 { x: -2, y: 0, z: 3 } };
    moon.move_moon();
    assert_eq!(moon, Moon { pos: Vec3 { x: -1, y: 2, z: 6 }, vel: Vec3 { x: -2, y: 0, z: 3 } });
}

#[test]
fn day12_energy() {
    // Two moons next to each other swing through each other with a period of 4 steps, and
    // 1000 is a multiple of 4.
    let pos = [Vec3 { x: 0, y: 0, z: 0 }, Vec3 { x: 1, y: 0, z: 0 }];
    assert_eq!(part_one(&pos), Some(0));
    assert_eq!(part_one(&[]), Some(0));
    // A lone moon never moves: it is still along every axis after one step.
    assert_eq!(part_two(&[Vec3 { x: 4, y: 5, z: 6 }]), Some(2));
    assert_eq!(part_two(&pos), Some(4));
}

#[test]
fn day12_gcd_and_lcm() {
    assert_eq!(gcd(12, 18), 6);
    assert_eq!(gcd(18, 12), 6);
    assert_eq!(gcd(7, 0), 7);
    assert_eq!(gcd(0, 7), 7);
    assert_eq!(gcd(0, 0), 0);
    assert_eq!(gcd(17, 5), 1);
    assert_eq!(lcm(4, 6), Some(12));
    assert_eq!(lcm(0, 6), Some(0));
    assert_eq!(lcm(0, 0), None);
    assert_eq!(lcm(i64::MAX, 2), None);
    assert_eq!(lcm(i64::MAX, 1), Some(i64::MAX));
    assert_eq!(lcm(18, 28), Some(252));
    // numbers below zero
    assert_eq!(gcd(-4, 6), 2);
    assert_eq!(gcd(4, -6), -2);
    assert_eq!(gcd(-4, 0), -4);
    assert_eq!(gcd(i64::MIN, -1), -1);
    assert_eq!(gcd(-1, i64::MIN), -1);
    assert_eq!(lcm(4, -6), Some(12));
    assert_eq!(lcm(-4, 6), Some(-12));
    // the product does not fit, the multiple does
    assert_eq!(lcm(i64::MAX, i64::MAX), Some(i64::MAX));
    assert_eq!(lcm(i64::MIN, i64::MIN), Some(i64::MIN));
    assert_eq!(lcm(i64::MAX, i64::MAX - 1), None);
    assert_eq!(lcm(i64::MIN, 1), Some(i64::MIN));
}
