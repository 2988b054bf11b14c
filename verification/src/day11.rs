//! The hull painting robot: a machine that is told the colour under it and
//! answers with a colour to paint and a way to turn.

use crate::grid::{draw, is_picture, key, key_of};
use crate::intcode_computer::{parse_input, program, Computer, Machine, STEP_BUDGET};
use std::collections::{HashMap, HashSet};
use vstd::prelude::*;
use vstd::std_specs::iter::IteratorSpec;
use vstd::slice::slice_to_vec;

verus! {

broadcast use vstd::std_specs::hash::group_hash_axioms;

/// The number of cells that the machine is given.
pub const MEMORY: usize = 1500;

/// The number of panels after which [`PaintingRobot::execute`] gives up.
pub const PANEL_BUDGET: u64 = 0xffff_ffff_ffff_ffff;

/// The colour of a panel: what the map holds for it, and 0 where it holds
/// nothing.
pub open spec fn colour(map: Map<u64, i64>, position: (i32, i32)) -> i64 {
    if map.contains_key(key_of(position)) {
        map[key_of(position)]
    } else {
        0
    }
}

/// The direction after a turn. Directions are 0 for up, 1 for right, 2 for
/// down and 3 for left. A turn of 0 is a quarter to the left; any other turn
/// is that many quarters to the right.
pub open spec fn turned(direction: i64, dir: i64) -> i64 {
    ((direction + if dir == 0 {
        -1
    } else {
        dir as int
    }) % 4) as i64
}

/// After a turn the robot looks in one of the four directions, whatever it
/// looked in before, and four quarters to the right bring it back.
pub proof fn lemma_turned_is_a_direction(direction: i64, dir: i64)
    ensures
        0 <= turned(direction, dir) <= 3,
        0 <= direction <= 3 ==> turned(direction, 4) == direction,
        0 <= direction <= 3 ==> turned(turned(direction, 1), 0) == direction,
{
}

/// The position one panel on in a direction. Coordinates wrap around; a
/// direction that is none of the four leaves the position as it is.
pub open spec fn moved(position: (i32, i32), direction: i64) -> (i32, i32) {
    if direction == 0 {
        (position.0, position.1.wrapping_add(1))
    } else if direction == 1 {
        (position.0.wrapping_add(1), position.1)
    } else if direction == 2 {
        (position.0, position.1.wrapping_sub(1))
    } else if direction == 3 {
        (position.0.wrapping_sub(1), position.1)
    } else {
        position
    }
}

/// The mathematical model of a robot.
pub struct Robot {
    /// The machine that steers the robot.
    pub machine: Machine,
    /// Where the robot looks.
    pub direction: i64,
    /// Where the robot stands.
    pub position: (i32, i32),
    /// The keys of the panels whose colour the robot has changed.
    pub painted: Set<u64>,
}

impl Robot {
    /// Whether painting the panel under the robot changes its colour. A panel
    /// that the map does not hold counts as black, and so as changed only by
    /// white paint.
    pub open spec fn changes(self, map: Map<u64, i64>, paint_to: i64) -> bool {
        if map.contains_key(key_of(self.position)) {
            map[key_of(self.position)] != paint_to
        } else {
            paint_to == 1
        }
    }

    /// The robot and the map after one instruction of the machine: the panel
    /// under the robot has the colour `paint_to`, and counts as painted if
    /// that has changed it; the robot has turned as `dir` says and moved one
    /// panel on.
    pub open spec fn step(self, map: Map<u64, i64>, paint_to: i64, dir: i64) -> (
        Robot,
        Map<u64, i64>,
    ) {
        let direction = turned(self.direction, dir);
        (
            Robot {
                direction,
                position: moved(self.position, direction),
                painted: if self.changes(map, paint_to) {
                    self.painted.insert(key_of(self.position))
                } else {
                    self.painted
                },
                ..self
            },
            map.insert(key_of(self.position), paint_to),
        )
    }

    /// The robot and the map at the end of a tour, and whether the tour came
    /// to its end.
    ///
    /// The machine runs until it yields. Its two oldest outputs are taken away
    /// as the colour and the turn of one [`Robot::step`]. If the machine then
    /// sits on a halt instruction, the tour is at its end. Otherwise the colour
    /// of the panel that the robot has reached is supplied to the machine, and
    /// the tour goes on. The tour breaks off where the machine runs into a
    /// fault or yields with fewer than two outputs, and after `fuel` panels.
    pub open spec fn tour(self, map: Map<u64, i64>, fuel: nat) -> (Robot, Map<u64, i64>, bool)
        decreases fuel,
    {
        if fuel == 0 {
            (self, map, false)
        } else {
            let (machine, result) = self.machine.run(STEP_BUDGET as nat);
            if result is Err || machine.output.len() < 2 {
                (Robot { machine, ..self }, map, false)
            } else {
                let answered = Robot {
                    machine: Machine { output: machine.output.skip(2), ..machine },
                    ..self
                };
                let (robot, map) = answered.step(map, machine.output[0], machine.output[1]);
                if robot.machine.halted() {
                    (robot, map, true)
                } else {
                    (Robot { machine: robot.machine.supply(colour(map, robot.position)), ..robot }).tour(
                        map,
                        (fuel - 1) as nat,
                    )
                }
            }
        }
    }
}

/// A robot on a hull.
#[derive(Debug)]
pub struct PaintingRobot {
    /// The machine that steers the robot.
    pub computer: Computer,
    /// Where the robot looks: 0 is up, 1 is right, 2 is down, 3 is left.
    pub direction: i64,
    /// Where the robot stands.
    pub position: (i32, i32),
    /// The keys of the panels whose colour the robot has changed.
    pub painted: HashSet<u64>,
}

impl View for PaintingRobot {
    type V = Robot;

    open spec fn view(&self) -> Robot {
        Robot {
            machine: self.computer@,
            direction: self.direction,
            position: self.position,
            painted: self.painted@,
        }
    }
}

/// Parses the program: decimal literals separated by commas.
pub fn input_generator(input: &str) -> (r: Option<Vec<i64>>)
    ensures
        match r {
            Some(code) => program(input@) == Some(code@),
            None => program(input@) is None,
        },
{
    parse_input(input)
}

/// The direction after a turn.
fn turn(direction: i64, dir: i64) -> (r: i64)
    ensures
        r == turned(direction, dir),
{
    let by: i128 = if dir == 0 {
        -1
    } else {
        dir as i128
    };
    let sum: i128 = direction as i128 + by;
    if sum >= 0 {
        (sum % 4) as i64
    } else {
        let back: i128 = (-sum) % 4;
        if back == 0 {
            0
        } else {
            (4 - back) as i64
        }
    }
}

impl PaintingRobot {
    /// Lets the robot paint until its machine halts. Returns whether it did:
    /// false means that the tour broke off.
    pub fn execute(&mut self, map: &mut HashMap<u64, i64>) -> (finished: bool)
        ensures
            (final(self)@, final(map)@, finished) == old(self)@.tour(
                old(map)@,
                PANEL_BUDGET as nat,
            ),
    {
        let mut fuel: u64 = PANEL_BUDGET;
        while fuel > 0
            invariant
                self@.tour(map@, fuel as nat) == old(self)@.tour(old(map)@, PANEL_BUDGET as nat),
            decreases fuel,
        {
            let result = self.computer.execute();
            if result.is_err() {
                return false;
            }
            let answers = self.computer.get_all_output();
            if answers.len() < 2 {
                return false;
            }
            let ghost yielded = self.computer@;
            let paint_to: i64 = answers[0];
            let dir: i64 = answers[1];
            self.computer.get_next_output();
            self.computer.get_next_output();
            proof {
                assert(yielded.output.drop_first().drop_first() =~= yielded.output.skip(2));
            }

            self.step(map, paint_to, dir);

            if self.computer.halted() {
                return true;
            }
            let k = key(self.position);
            let input: i64 = match map.get(&k) {
                Some(colour) => *colour,
                None => 0,
            };
            self.computer.input(input);
            fuel = fuel - 1;
        }
        false
    }

    /// Paints the panel under the robot, turns the robot and moves it one
    /// panel on.
    pub fn step(&mut self, map: &mut HashMap<u64, i64>, paint_to: i64, dir: i64)
        ensures
            (final(self)@, final(map)@) == old(self)@.step(old(map)@, paint_to, dir),
    {
        // handles painting
        let k = key(self.position);
        let changes = match map.get(&k) {
            Some(colour) => *colour != paint_to,
            None => paint_to == 1,
        };
        map.insert(k, paint_to);
        if changes {
            self.painted.insert(k);
        }
        // handles rotating
        self.direction = turn(self.direction, dir);

        // handles moving
        if self.direction == 0 {
            self.position.1 = self.position.1.wrapping_add(1);
        } else if self.direction == 1 {
            self.position.0 = self.position.0.wrapping_add(1);
        } else if self.direction == 2 {
            self.position.1 = self.position.1.wrapping_sub(1);
        } else if self.direction == 3 {
            self.position.0 = self.position.0.wrapping_sub(1);
        }
    }
}

/// The keys that the map holds as white: with the colour 1.
pub open spec fn whites(map: Map<u64, i64>) -> Set<u64> {
    Set::new(|k: u64| map.contains_key(k) && map[k] == 1)
}

/// The keys of the white panels.
pub fn white_panels(map: &HashMap<u64, i64>) -> (white: HashSet<u64>)
    ensures
        white@ == whites(map@),
{
    let mut white: HashSet<u64> = HashSet::new();
    let keys = map.keys();
    let ghost all = keys.remaining().unref();
    for k in it: keys
        invariant
            it.seq().unref() == all,
            all.to_set() == map@.dom(),
            forall|key: u64|
                white@.contains(key) <==> whites(map@).contains(key) && exists|j: int|
                    0 <= j < it.index() && all[j] == key,
    {
        let is_white = match map.get(k) {
            Some(colour) => *colour == 1,
            None => false,
        };
        if is_white {
            white.insert(*k);
        }
    }
    proof {
        assert forall|key: u64| whites(map@).contains(key) implies white@.contains(key) by {
            assert(all.to_set().contains(key));
        }
        assert(white@ =~= whites(map@));
    }
    white
}

/// The robot as it stands before its tour: at the panel (0, 0), looking up,
/// with nothing painted. Its machine has at least 1500 cells, yields when it
/// lacks input, and holds the colour `first` as its input.
pub open spec fn parked(code: Seq<i64>, first: i64) -> Robot {
    Robot {
        machine: (Machine { halt_on_missing_input: true, ..Machine::boot(code) }).grown(
            MEMORY as nat,
        ).supply(first),
        direction: 0,
        position: (0, 0),
        painted: Set::empty(),
    }
}

/// A robot before its tour.
fn park(input: &[i64], first: i64) -> (robot: PaintingRobot)
    ensures
        robot@ == parked(input@, first),
{
    let mut robot = PaintingRobot {
        computer: Computer::new(slice_to_vec(input)).halt_on_missing_input().set_available_memory(
            MEMORY,
        ),
        direction: 0,
        position: (0, 0),
        painted: HashSet::new(),
    };
    robot.computer.input(first);
    robot
}

/// The number of panels whose colour the robot changes on a hull that is all
/// black. `None` if the tour breaks off.
pub fn part_one(input: &[i64]) -> (r: Option<usize>)
    ensures
        r == ({
            let (robot, map, finished) = parked(input@, 0).tour(Map::empty(), PANEL_BUDGET as nat);
            if finished {
                Some(robot.painted.len() as usize)
            } else {
                None
            }
        }),
{
    let mut map: HashMap<u64, i64> = HashMap::new();
    let mut robot = park(input, 0);
    if robot.execute(&mut map) {
        Some(robot.painted.len())
    } else {
        None
    }
}

/// The picture that the robot paints on a hull that is black but for the
/// panel it starts on: its white panels as full blocks. `None` if the tour
/// breaks off.
pub fn part_two(input: &[i64]) -> (r: Option<String>)
    ensures
        ({
            let (robot, map, finished) = parked(input@, 1).tour(
                Map::<u64, i64>::empty().insert(key_of((0, 0)), 1),
                PANEL_BUDGET as nat,
            );
            match r {
                Some(image) => finished && is_picture(whites(map), seq!['\u{2588}'], image@),
                None => !finished,
            }
        }),
{
    let mut map: HashMap<u64, i64> = HashMap::new();
    map.insert(key((0, 0)), 1);
    let mut robot = park(input, 1);
    if robot.execute(&mut map) {
        proof {
            reveal_strlit("\u{2588}");
            assert("\u{2588}"@ =~= seq!['\u{2588}']);
        }
        Some(draw(&white_panels(&map), "\u{2588}"))
    } else {
        None
    }
}

} // verus!
