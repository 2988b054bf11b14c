//! The repair droid: a machine that is told a direction to move in and
//! answers whether it hit a wall, moved, or moved and found the oxygen
//! system.

use crate::graph::{distance, is_distance, lists};
use crate::grid::{draw, is_picture, key, key_of, lemma_panel_of_key, panel, panel_of};
use crate::intcode_computer::{parse_input, program, Computer, Machine, STEP_BUDGET};
use std::collections::{HashMap, HashSet};
use vstd::prelude::*;
use vstd::slice::slice_to_vec;
use vstd::std_specs::iter::IteratorSpec;

verus! {

broadcast use vstd::std_specs::hash::group_hash_axioms;

/// The number of moves after which [`Explorer::explore_all`] gives up.
pub const MOVE_BUDGET: u64 = 0xffff_ffff_ffff_ffff;

/// A place the droid can be at.
pub type Node = (i32, i32);

/// The place next to `node` in a direction: 1 is north, 2 is south, 3 is west
/// and 4 is east. Coordinates wrap around.
pub open spec fn neighbour_of(node: Node, direction: i64) -> Node {
    if direction == 1 {
        (node.0, node.1.wrapping_add(1))
    } else if direction == 2 {
        (node.0, node.1.wrapping_sub(1))
    } else if direction == 3 {
        (node.0.wrapping_sub(1), node.1)
    } else {
        (node.0.wrapping_add(1), node.1)
    }
}

/// The direction that leads back from where `dir` leads.
pub open spec fn inverse(dir: i64) -> i64 {
    if dir == 1 {
        2
    } else if dir == 2 {
        1
    } else if dir == 3 {
        4
    } else {
        3
    }
}

/// The first of the directions from `from` up to 4 in which the place next to
/// `pos` is not in the map, and 5 if there is none.
pub open spec fn first_unknown(map: Set<u64>, pos: Node, from: i64) -> i64
    decreases 5 - from,
{
    if from >= 5 {
        5
    } else if !map.contains(key_of(neighbour_of(pos, from))) {
        from
    } else {
        first_unknown(map, pos, (from + 1) as i64)
    }
}

/// The mathematical model of an explorer.
pub struct Exploration {
    /// The machine that steers the droid.
    pub machine: Machine,
    /// Where the droid is.
    pub pos: Node,
    /// The keys of the places that the droid has tried to move to.
    pub map: Set<u64>,
    /// The place of the oxygen system, once found.
    pub end: Option<Node>,
}

impl Exploration {
    /// The exploration after further moves, with `back` holding the
    /// directions that lead back the way the droid came, and whether it came
    /// to an end.
    ///
    /// The droid tries the first direction in which the next place is not in
    /// the map; if there is none, it takes the latest direction from `back`,
    /// and if there is none of those either, the exploration is at its end.
    /// The place in the chosen direction is put in the map, and if it was not
    /// there, the inverse of the direction is put on `back`. The direction is
    /// supplied to the machine, which runs until it yields, and its oldest
    /// output is taken away as the answer. The answer 2 means that the place
    /// holds the oxygen system: it is recorded and the exploration is at its
    /// end. The answer 1 means that the droid has moved to the place. The
    /// exploration breaks off where the machine runs into a fault or yields
    /// without output, and after `fuel` moves.
    pub open spec fn explore(self, back: Seq<i64>, fuel: nat) -> (Exploration, bool)
        decreases fuel,
    {
        let unknown = first_unknown(self.map, self.pos, 1);
        if fuel == 0 {
            (self, false)
        } else if unknown == 5 && back.len() == 0 {
            (self, true)
        } else {
            let dir = if unknown < 5 {
                unknown
            } else {
                back.last()
            };
            let rest = if unknown < 5 {
                back
            } else {
                back.drop_last()
            };
            let new_node = neighbour_of(self.pos, dir);
            let trail = if self.map.contains(key_of(new_node)) {
                rest
            } else {
                rest.push(inverse(dir))
            };
            let map = self.map.insert(key_of(new_node));
            let (machine, result) = self.machine.supply(dir).run(STEP_BUDGET as nat);
            if result is Err || machine.output.len() == 0 {
                (Exploration { machine, map, ..self }, false)
            } else {
                let out = machine.output[0];
                let machine = Machine { output: machine.output.drop_first(), ..machine };
                if out == 2 {
                    (Exploration { machine, map, end: Some(new_node), ..self }, true)
                } else {
                    (Exploration {
                        machine,
                        map,
                        pos: if out == 1 {
                            new_node
                        } else {
                            self.pos
                        },
                        ..self
                    }).explore(trail, (fuel - 1) as nat)
                }
            }
        }
    }
}

/// The keys of the places next to `node` that are in the map, for the
/// directions up to `dir`, in their order.
pub open spec fn open_neighbours(map: Set<u64>, node: Node, dir: i64) -> Seq<u64>
    decreases dir,
{
    if dir <= 0 {
        Seq::empty()
    } else {
        let before = open_neighbours(map, node, (dir - 1) as i64);
        if map.contains(key_of(neighbour_of(node, dir))) {
            before.push(key_of(neighbour_of(node, dir)))
        } else {
            before
        }
    }
}

/// The graph of an area: its nodes are the keys of the places in the map and
/// of the place (0, 0), and the successors of each are the places next to it
/// that are in the map.
pub open spec fn area(map: Set<u64>) -> Map<u64, Seq<u64>> {
    Map::new(
        |k: u64| map.contains(k) || k == key_of((0, 0)),
        |k: u64| open_neighbours(map, panel_of(k), 4),
    )
}

/// Whether `r` is the answer for an exploration: the number of places on a
/// shortest path from the place (0, 0) to the oxygen system, and nothing if
/// that has not been found or cannot be reached.
pub open spec fn is_way_to_oxygen(found: Exploration, r: Option<usize>) -> bool {
    match found.end {
        Some(end) => is_distance(area(found.map), key_of((0, 0)), key_of(end), r),
        None => r is None,
    }
}

/// A droid that explores the area around it.
#[derive(Debug)]
pub struct Explorer {
    computer: Computer,
    pos: Node,
    map: HashSet<u64>,
    end: Option<Node>,
}

impl View for Explorer {
    type V = Exploration;

    closed spec fn view(&self) -> Exploration {
        Exploration { machine: self.computer@, pos: self.pos, map: self.map@, end: self.end }
    }
}

/// Parses the program: decimal literals separated by commas.
pub fn input_generator(input: &str) -> (r: Option<Vec<i64>>)
    ensures
        match r {
            Some(code) => program(input@) == Some(code@),
            None => program(input@) is None,
        },
{
    parse_input(input)
}

/// The place next to `node` in a direction.
pub fn neighbour_node(node: &Node, direction: i64) -> (next: Node)
    requires
        1 <= direction <= 4,
    ensures
        next == neighbour_of(*node, direction),
{
    if direction == 1 {
        (node.0, node.1.wrapping_add(1))
    } else if direction == 2 {
        (node.0, node.1.wrapping_sub(1))
    } else if direction == 3 {
        (node.0.wrapping_sub(1), node.1)
    } else {
        (node.0.wrapping_add(1), node.1)
    }
}

/// The direction that leads back from where `dir` leads.
pub fn inv(dir: i64) -> (back: i64)
    requires
        1 <= dir <= 4,
    ensures
        back == inverse(dir),
        1 <= back <= 4,
{
    if dir == 1 {
        2
    } else if dir == 2 {
        1
    } else if dir == 3 {
        4
    } else {
        3
    }
}

/// The keys of the places next to `node` that are in the map, in the order
/// of the directions.
pub fn neighbours(map: &HashSet<u64>, node: &Node) -> (next: Vec<u64>)
    ensures
        next@ == open_neighbours(map@, *node, 4),
{
    let mut next: Vec<u64> = Vec::new();
    let mut dir: i64 = 1;
    while dir < 5
        invariant
            1 <= dir <= 5,
            next@ == open_neighbours(map@, *node, (dir - 1) as i64),
        decreases 5 - dir,
    {
        let k = key(neighbour_node(node, dir));
        if map.contains(&k) {
            next.push(k);
        }
        dir = dir + 1;
    }
    next
}

/// The graph of the area that a map shows.
pub fn chart(map: &HashSet<u64>) -> (graph: HashMap<u64, Vec<u64>>)
    ensures
        lists(graph@) == area(map@),
{
    let mut graph: HashMap<u64, Vec<u64>> = HashMap::new();
    let start: Node = (0, 0);
    graph.insert(key(start), neighbours(map, &start));
    proof {
        lemma_panel_of_key(0, start);
    }
    let keys = map.iter();
    let ghost all = keys.remaining().unref();
    for k in it: keys
        invariant
            it.seq().unref() == all,
            all.to_set() == map@,
            forall|n: u64|
                graph@.contains_key(n) <==> n == key_of((0, 0)) || exists|j: int|
                    0 <= j < it.index() && all[j] == n,
            forall|n: u64|
                graph@.contains_key(n) ==> (#[trigger] graph@[n])@ == open_neighbours(
                    map@,
                    panel_of(n),
                    4,
                ),
    {
        graph.insert(*k, neighbours(map, &panel(*k)));
    }
    proof {
        assert forall|n: u64| map@.contains(n) implies graph@.contains_key(n) by {
            assert(all.to_set().contains(n));
        }
        assert forall|n: u64| graph@.contains_key(n) implies map@.contains(n) || n == key_of(
            (0, 0),
        ) by {
            if n != key_of((0, 0)) {
                let j = choose|j: int| 0 <= j < all.len() && all[j] == n;
                assert(all.to_set().contains(all[j]));
            }
        }
        assert(lists(graph@) =~= area(map@));
    }
    graph
}

impl Explorer {
    /// A droid at the place (0, 0) that has seen nothing yet. Its machine
    /// yields when it lacks input.
    pub fn new(input: &[i64]) -> (explorer: Explorer)
        ensures
            explorer@ == (Exploration {
                machine: Machine { halt_on_missing_input: true, ..Machine::boot(input@) },
                pos: (0, 0),
                map: Set::empty(),
                end: None,
            }),
    {
        Explorer {
            computer: Computer::new(slice_to_vec(input)).halt_on_missing_input(),
            pos: (0, 0),
            map: HashSet::new(),
            end: None,
        }
    }

    /// Where the droid is.
    pub fn position(&self) -> (pos: Node)
        ensures
            pos == self@.pos,
    {
        self.pos
    }

    /// The place of the oxygen system, if it has been found.
    pub fn oxygen(&self) -> (end: Option<Node>)
        ensures
            end == self@.end,
    {
        self.end
    }

    /// The first direction in which the place next to the droid is not in
    /// the map, and 5 if there is none.
    fn unknown_direction(&self) -> (dir: i64)
        ensures
            dir == first_unknown(self@.map, self@.pos, 1),
            1 <= dir <= 5,
    {
        let mut dir: i64 = 1;
        while dir < 5
            invariant
                1 <= dir <= 5,
                first_unknown(self@.map, self@.pos, dir) == first_unknown(self@.map, self@.pos, 1),
            decreases 5 - dir,
        {
            if !self.map.contains(&key(neighbour_node(&self.pos, dir))) {
                return dir;
            }
            dir = dir + 1;
        }
        dir
    }

    /// Lets the droid move about until it has found the oxygen system, or has
    /// nowhere left to go. Returns whether it came that far: false means that
    /// the exploration broke off.
    pub fn explore_all(&mut self) -> (finished: bool)
        ensures
            (final(self)@, finished) == old(self)@.explore(Seq::empty(), MOVE_BUDGET as nat),
    {
        // When we add a new point to the map, we add the invert to the backtrace.
        let mut back: Vec<i64> = Vec::new();
        let mut fuel: u64 = MOVE_BUDGET;
        while fuel > 0
            invariant
                self@.explore(back@, fuel as nat) == old(self)@.explore(
                    Seq::empty(),
                    MOVE_BUDGET as nat,
                ),
                forall|i: int| 0 <= i < back@.len() ==> 1 <= #[trigger] back@[i] <= 4,
            decreases fuel,
        {
            let unknown = self.unknown_direction();
            let dir: i64 = if unknown < 5 {
                unknown
            } else {
                match back.pop() {
                    Some(dir) => dir,
                    None => {
                        return true;
                    },
                }
            };
            let new_node = neighbour_node(&self.pos, dir);
            let new = self.map.insert(key(new_node));
            if new {
                back.push(inv(dir));
            }
            // Try to move
            self.computer.input(dir);
            if self.computer.execute().is_err() {
                return false;
            }
            let out: i64 = match self.computer.get_next_output() {
                Some(out) => out,
                None => {
                    return false;
                },
            };
            if out == 2 {
                self.end = Some(new_node);
                return true;
            }
            if out == 1 {
                self.pos = new_node;
            }
            fuel = fuel - 1;
        }
        false
    }

    /// The number of places on a shortest way from the place (0, 0) to the
    /// oxygen system, both counted, in the graph of the area. `None` if the
    /// oxygen system has not been found, or if no way leads to it.
    pub fn step_to_oxygen(&self) -> (r: Option<usize>)
        ensures
            is_way_to_oxygen(self@, r),
    {
        match self.end {
            Some(end) => distance(&chart(&self.map), key((0, 0)), key(end)),
            None => None,
        }
    }

    /// A picture of the places in the map: a star for each, within the bounds
    /// of the map and the place (0, 0).
    pub fn viz(&self) -> (image: String)
        ensures
            is_picture(self@.map, seq!['*'], image@),
    {
        proof {
            reveal_strlit("*");
            assert("*"@ =~= seq!['*']);
        }
        draw(&self.map, "*")
    }
}

/// The number of places on a shortest way to the oxygen system, counting the
/// place where the droid starts. `None` if the exploration breaks off, or
/// does not find a way.
pub fn part_one(input: &[i64]) -> (r: Option<usize>)
    ensures
        ({
            let (found, finished) = (Exploration {
                machine: Machine { halt_on_missing_input: true, ..Machine::boot(input@) },
                pos: (0, 0),
                map: Set::empty(),
                end: None,
            }).explore(Seq::empty(), MOVE_BUDGET as nat);
            if finished {
                is_way_to_oxygen(found, r)
            } else {
                r is None
            }
        }),
{
    let mut explorer = Explorer::new(input);
    if explorer.explore_all() {
        explorer.step_to_oxygen()
    } else {
        None
    }
}

} // verus!
