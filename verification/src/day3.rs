//! Two wires on a grid, and the places where they cross.

use crate::grid::{key, key_of, panel, panel_of, lemma_panel_of_key};
use crate::text::{as_u32, chars, lines, parse_u32, split, split_at, split_lines, views};
use std::collections::HashMap;
use vstd::prelude::*;
use vstd::std_specs::iter::IteratorSpec;

verus! {

broadcast use vstd::std_specs::hash::group_hash_axioms;

/// One stretch of a wire: a direction and a number of steps.
#[derive(Debug, Clone, Copy, PartialEq, Eq, Structural)]
pub enum Instruction {
    /// Towards greater first coordinates.
    Right(u32),
    /// Towards lesser second coordinates.
    Down(u32),
    /// Towards lesser first coordinates.
    Left(u32),
    /// Towards greater second coordinates.
    Up(u32),
}

/// Why a text is no instruction.
#[derive(Debug, Clone, Copy, PartialEq, Eq, Structural)]
pub enum InstructionParseError {
    /// What follows the first character is no number of 32 bits, or the text
    /// is empty.
    IntError,
    /// The first character, which is carried, is none of R, D, L and U.
    WrongIdent(char),
}

/// The instruction that a text denotes: one of the letters R, D, L and U, and
/// behind it a number. A text without a number is refused before one with
/// another letter.
pub open spec fn instruction(s: Seq<char>) -> Result<Instruction, InstructionParseError> {
    if s.len() == 0 {
        Err(InstructionParseError::IntError)
    } else {
        match as_u32(s.drop_first()) {
            None => Err(InstructionParseError::IntError),
            Some(rest) => if s[0] == 'R' {
                Ok(Instruction::Right(rest))
            } else if s[0] == 'D' {
                Ok(Instruction::Down(rest))
            } else if s[0] == 'L' {
                Ok(Instruction::Left(rest))
            } else if s[0] == 'U' {
                Ok(Instruction::Up(rest))
            } else {
                Err(InstructionParseError::WrongIdent(s[0]))
            },
        }
    }
}

/// The instructions that the first `n` pieces denote, or the error of the
/// first piece that denotes none.
pub open spec fn instructions(pieces: Seq<Seq<char>>, n: nat) -> Result<
    Seq<Instruction>,
    InstructionParseError,
>
    decreases n,
{
    if n == 0 {
        Ok(Seq::empty())
    } else {
        match instructions(pieces, (n - 1) as nat) {
            Err(e) => Err(e),
            Ok(before) => match instruction(pieces[n - 1]) {
                Err(e) => Err(e),
                Ok(i) => Ok(before.push(i)),
            },
        }
    }
}

/// The wire that a line denotes: its pieces between commas, each an
/// instruction.
pub open spec fn wire(line: Seq<char>) -> Result<Seq<Instruction>, InstructionParseError> {
    instructions(split(line, ','), split(line, ',').len())
}

/// The wires that the first `n` lines denote, or the error of the first line
/// that denotes none.
pub open spec fn wires(all: Seq<Seq<char>>, n: nat) -> Result<
    Seq<Seq<Instruction>>,
    InstructionParseError,
>
    decreases n,
{
    if n == 0 {
        Ok(Seq::empty())
    } else {
        match wires(all, (n - 1) as nat) {
            Err(e) => Err(e),
            Ok(before) => match wire(all[n - 1]) {
                Err(e) => Err(e),
                Ok(w) => Ok(before.push(w)),
            },
        }
    }
}

/// The views of a sequence of wires.
pub open spec fn wire_views(all: Seq<Vec<Instruction>>) -> Seq<Seq<Instruction>> {
    all.map_values(|w: Vec<Instruction>| w@)
}

impl Instruction {
    /// The number of steps.
    pub open spec fn distance(self) -> u32 {
        match self {
            Instruction::Right(x) => x,
            Instruction::Down(x) => x,
            Instruction::Left(x) => x,
            Instruction::Up(x) => x,
        }
    }

    /// The place one step on from `from`. Coordinates wrap around.
    pub open spec fn ahead(self, from: (i32, i32)) -> (i32, i32) {
        match self {
            Instruction::Right(_) => (from.0.wrapping_add(1), from.1),
            Instruction::Left(_) => (from.0.wrapping_sub(1), from.1),
            Instruction::Down(_) => (from.0, from.1.wrapping_sub(1)),
            Instruction::Up(_) => (from.0, from.1.wrapping_add(1)),
        }
    }

    /// The number of steps.
    pub fn get_distance(&self) -> (d: u32)
        ensures
            d == self.distance(),
    {
        match self {
            Instruction::Right(x) => *x,
            Instruction::Down(x) => *x,
            Instruction::Left(x) => *x,
            Instruction::Up(x) => *x,
        }
    }

    /// Reads an instruction from its characters.
    pub fn parse(s: &Vec<char>) -> (r: Result<Instruction, InstructionParseError>)
        ensures
            r == instruction(s@),
    {
        if s.len() == 0 {
            return Err(InstructionParseError::IntError);
        }
        let ident: char = s[0];
        let mut digits: Vec<char> = Vec::new();
        let mut i: usize = 1;
        while i < s.len()
            invariant
                1 <= i <= s.len(),
                digits@ == s@.subrange(1, i as int),
            decreases s.len() - i,
        {
            digits.push(s[i]);
            proof {
                assert(s@.subrange(1, i + 1) =~= s@.subrange(1, i as int).push(s@[i as int]));
            }
            i += 1;
        }
        proof {
            assert(s@.subrange(1, i as int) =~= s@.drop_first());
        }
        let rest: u32 = match parse_u32(&digits) {
            Some(rest) => rest,
            None => {
                return Err(InstructionParseError::IntError);
            },
        };
        if ident == 'R' {
            Ok(Instruction::Right(rest))
        } else if ident == 'D' {
            Ok(Instruction::Down(rest))
        } else if ident == 'L' {
            Ok(Instruction::Left(rest))
        } else if ident == 'U' {
            Ok(Instruction::Up(rest))
        } else {
            Err(InstructionParseError::WrongIdent(ident))
        }
    }

    /// Reads an instruction from its text.
    pub fn from_str(s: &str) -> (r: Result<Instruction, InstructionParseError>)
        ensures
            r == instruction(s@),
    {
        Instruction::parse(&chars(s))
    }
}

/// A place on a wire, with the number of steps that the wire takes to reach
/// it first. Two nodes are equal if they are at the same place.
#[derive(Debug, Clone, Copy)]
pub struct Node {
    /// The place.
    pub position: (i32, i32),
    /// The length of the wire up to the place.
    pub steps: u32,
}

impl PartialEq for Node {
    fn eq(&self, other: &Self) -> (same: bool) {
        self.position.0 == other.position.0 && self.position.1 == other.position.1
    }
}

impl Eq for Node {

}

impl vstd::std_specs::cmp::PartialEqSpecImpl for Node {
    open spec fn obeys_eq_spec() -> bool {
        true
    }

    open spec fn eq_spec(&self, other: &Self) -> bool {
        self.position == other.position
    }
}

impl Node {
    /// A place with a number of steps.
    pub fn new(position: (i32, i32), steps: u32) -> (node: Node)
        ensures
            node.position == position,
            node.steps == steps,
    {
        Node { position, steps }
    }
}

/// Reads the wires, one to a line, each a list of instructions between
/// commas.
pub fn generator_input(input: &str) -> (r: Result<Vec<Vec<Instruction>>, InstructionParseError>)
    ensures
        match r {
            Ok(all) => wires(lines(input@), lines(input@).len()) == Ok::<
                Seq<Seq<Instruction>>,
                InstructionParseError,
            >(wire_views(all@)),
            Err(e) => wires(lines(input@), lines(input@).len()) == Err::<
                Seq<Seq<Instruction>>,
                InstructionParseError,
            >(e),
        },
{
    let text = chars(input);
    let rows = split_lines(&text);
    let mut all: Vec<Vec<Instruction>> = Vec::new();
    let mut n: usize = 0;
    assert(wire_views(all@) =~= Seq::empty());
    while n < rows.len()
        invariant
            n <= rows.len(),
            rows@.len() == lines(input@).len(),
            views(rows@) == lines(input@),
            wires(lines(input@), n as nat) == Ok::<Seq<Seq<Instruction>>, InstructionParseError>(
                wire_views(all@),
            ),
        decreases rows.len() - n,
    {
        assert(views(rows@)[n as int] == rows@[n as int]@);
        let pieces = split_at(&rows[n], ',');
        let mut one: Vec<Instruction> = Vec::new();
        let mut k: usize = 0;
        while k < pieces.len()
            invariant
                k <= pieces.len(),
                n < rows.len(),
                rows@.len() == lines(input@).len(),
                views(pieces@) == split(lines(input@)[n as int], ','),
                wires(lines(input@), n as nat) is Ok,
                instructions(views(pieces@), k as nat) == Ok::<
                    Seq<Instruction>,
                    InstructionParseError,
                >(one@),
            decreases pieces.len() - k,
        {
            assert(views(pieces@)[k as int] == pieces@[k as int]@);
            match Instruction::parse(&pieces[k]) {
                Ok(i) => {
                    one.push(i);
                },
                Err(e) => {
                    proof {
                        lemma_instructions_fail(views(pieces@), k as nat + 1, pieces@.len());
                        lemma_wires_fail(lines(input@), n as nat + 1, rows@.len());
                    }
                    return Err(e);
                },
            }
            k += 1;
        }
        let ghost before = all@;
        all.push(one);
        proof {
            assert(wire_views(all@) =~= wire_views(before).push(all@.last()@));
        }
        n += 1;
    }
    Ok(all)
}

/// Once a piece has been refused, the error stays.
pub proof fn lemma_instructions_fail(pieces: Seq<Seq<char>>, n: nat, m: nat)
    requires
        n <= m,
        instructions(pieces, n) is Err,
    ensures
        instructions(pieces, m) == instructions(pieces, n),
    decreases m,
{
    if n < m {
        lemma_instructions_fail(pieces, n, (m - 1) as nat);
    }
}

/// Once a line has been refused, the error stays.
pub proof fn lemma_wires_fail(all: Seq<Seq<char>>, n: nat, m: nat)
    requires
        n <= m,
        wires(all, n) is Err,
    ensures
        wires(all, m) == wires(all, n),
    decreases m,
{
    if n < m {
        lemma_wires_fail(all, n, (m - 1) as nat);
    }
}

/// The mathematical model of a [`CollisionChecker`].
pub struct Tracks {
    /// For the key of each place on the first wire, the length of the wire
    /// up to the place.
    pub line_1: Map<u64, u32>,
    /// The same for the second wire.
    pub line_2: Map<u64, u32>,
    /// The length of the wire that is being followed, so far.
    pub steps: u32,
    /// The place that has been reached.
    pub current: (i32, i32),
}

impl Tracks {
    /// A map with a place recorded, unless it is recorded already: a wire
    /// that comes back to a place keeps the length of its first visit.
    pub open spec fn record(line: Map<u64, u32>, at: (i32, i32), steps: u32) -> Map<u64, u32> {
        if line.contains_key(key_of(at)) {
            line
        } else {
            line.insert(key_of(at), steps)
        }
    }

    /// The tracks after `n` steps of an instruction on the wire `line`. Each
    /// step moves the current place on by one, adds one to the length, which
    /// wraps around, and records the place for the wire.
    pub open spec fn follow(self, instruction: Instruction, line: usize, n: nat) -> Tracks
        decreases n,
    {
        if n == 0 {
            self
        } else {
            let before = self.follow(instruction, line, (n - 1) as nat);
            let current = instruction.ahead(before.current);
            let steps = before.steps.wrapping_add(1);
            Tracks {
                line_1: if line == 1 {
                    Tracks::record(before.line_1, current, steps)
                } else {
                    before.line_1
                },
                line_2: if line == 1 {
                    before.line_2
                } else {
                    Tracks::record(before.line_2, current, steps)
                },
                steps,
                current,
            }
        }
    }

    /// The tracks back at the start of a wire.
    pub open spec fn restart(self) -> Tracks {
        Tracks { current: (0, 0), steps: 0, ..self }
    }

    /// The tracks after the first `n` instructions of a wire.
    pub open spec fn populate(self, instructions: Seq<Instruction>, line: usize, n: nat) -> Tracks
        decreases n,
    {
        if n == 0 {
            self.restart()
        } else {
            self.populate(instructions, line, (n - 1) as nat).follow(
                instructions[n - 1],
                line,
                instructions[n - 1].distance() as nat,
            )
        }
    }

    /// Whether both wires pass the place with the key `k`.
    pub open spec fn collides(self, k: u64) -> bool {
        self.line_1.contains_key(k) && self.line_2.contains_key(k)
    }

    /// Whether `node` is a place that both wires pass, with the length of
    /// the first wire up to it.
    pub open spec fn crossing(self, node: Node) -> bool {
        self.collides(key_of(node.position)) && node.steps == self.line_1[key_of(node.position)]
    }
}

/// The distance of a place from the place (0, 0), along the grid.
pub open spec fn manhattan(position: (i32, i32)) -> int {
    (if position.0 < 0 {
        -position.0
    } else {
        position.0 as int
    }) + (if position.1 < 0 {
        -position.1
    } else {
        position.1 as int
    })
}

/// Follows wires and keeps where each has been.
#[derive(Debug)]
pub struct CollisionChecker {
    line_1: HashMap<u64, u32>,
    line_2: HashMap<u64, u32>,
    steps: u32,
    current: (i32, i32),
}

impl View for CollisionChecker {
    type V = Tracks;

    closed spec fn view(&self) -> Tracks {
        Tracks {
            line_1: self.line_1@,
            line_2: self.line_2@,
            steps: self.steps,
            current: self.current,
        }
    }
}

impl CollisionChecker {
    /// A checker that has followed nothing yet.
    pub fn new() -> (checker: CollisionChecker)
        ensures
            checker@ == (Tracks {
                line_1: Map::empty(),
                line_2: Map::empty(),
                steps: 0,
                current: (0, 0),
            }),
    {
        CollisionChecker {
            line_1: HashMap::new(),
            line_2: HashMap::new(),
            steps: 0,
            current: (0, 0),
        }
    }

    /// Follows one instruction of the wire `line`, which is 1 or 2, from the
    /// current place.
    pub fn follow_line(&mut self, instruction: &Instruction, line: usize)
        requires
            line == 1 || line == 2,
        ensures
            final(self)@ == old(self)@.follow(*instruction, line, instruction.distance() as nat),
    {
        let dist = instruction.get_distance();
        let mut done: u32 = 0;
        while done < dist
            invariant
                done <= dist,
                line == 1 || line == 2,
                self@ == old(self)@.follow(*instruction, line, done as nat),
            decreases dist - done,
        {
            match instruction {
                Instruction::Right(_) => {
                    self.current.0 = self.current.0.wrapping_add(1);
                },
                Instruction::Left(_) => {
                    self.current.0 = self.current.0.wrapping_sub(1);
                },
                Instruction::Down(_) => {
                    self.current.1 = self.current.1.wrapping_sub(1);
                },
                Instruction::Up(_) => {
                    self.current.1 = self.current.1.wrapping_add(1);
                },
            }
            self.steps = self.steps.wrapping_add(1);
            let k = key(self.current);
            if line == 1 {
                if !self.line_1.contains_key(&k) {
                    self.line_1.insert(k, self.steps);
                }
            } else {
                if !self.line_2.contains_key(&k) {
                    self.line_2.insert(k, self.steps);
                }
            }
            done = done + 1;
        }
    }

    /// The places that both wires pass, each once and in no particular order,
    /// with the length of the first wire up to the place.
    pub fn collisions(&self) -> (all: Vec<Node>)
        ensures
            forall|i: int| 0 <= i < all@.len() ==> self@.crossing(#[trigger] all@[i]),
            forall|k: u64|
                self@.collides(k) ==> exists|i: int|
                    0 <= i < all@.len() && (#[trigger] all@[i]).position == panel_of(k),
            forall|i: int, j: int|
                0 <= i < j < all@.len() ==> (#[trigger] all@[i]).position != (
                #[trigger] all@[j]).position,
    {
        let mut all: Vec<Node> = Vec::new();
        let keys = self.line_1.keys();
        let ghost passed = keys.remaining().unref();
        let ghost mut origin: Seq<int> = Seq::empty();
        for k in it: keys
            invariant
                it.seq().unref() == passed,
                passed.to_set() == self.line_1@.dom(),
                passed.no_duplicates(),
                origin.len() == all@.len(),
                forall|i: int|
                    0 <= i < all@.len() ==> 0 <= #[trigger] origin[i] < it.index() && passed[origin[i]]
                        == key_of(all@[i].position) && self@.crossing(all@[i]),
                forall|i: int, j: int|
                    0 <= i < j < all@.len() ==> #[trigger] origin[i] < #[trigger] origin[j],
                forall|j: int|
                    0 <= j < it.index() && self@.collides(#[trigger] passed[j]) ==> origin.contains(j),
        {
            let ghost at = it.index() as int;
            proof {
                lemma_panel_of_key(*k, (0, 0));
                assert(passed.to_set().contains(passed[at]));
            }
            if self.line_2.contains_key(k) {
                let steps: u32 = match self.line_1.get(k) {
                    Some(steps) => *steps,
                    None => 0,
                };
                let ghost before = origin;
                all.push(Node::new(panel(*k), steps));
                proof {
                    origin = origin.push(at);
                    assert forall|j: int|
                        0 <= j < at + 1 && self@.collides(
                            #[trigger] passed[j],
                        ) implies origin.contains(j) by {
                        if j < at {
                            let i = choose|i: int| 0 <= i < before.len() && before[i] == j;
                            assert(origin[i] == j);
                        } else {
                            assert(origin[origin.len() - 1] == j);
                        }
                    }
                }
            }
        }
        proof {
            assert forall|i: int| 0 <= i < all@.len() implies self@.crossing(#[trigger] all@[i]) by {
                assert(0 <= origin[i]);
            }
            assert forall|k: u64| self@.collides(k) implies exists|i: int|
                0 <= i < all@.len() && (#[trigger] all@[i]).position == panel_of(k) by {
                assert(passed.to_set().contains(k));
                let j = choose|j: int| 0 <= j < passed.len() && passed[j] == k;
                assert(self@.collides(passed[j]));
                let i = choose|i: int| 0 <= i < origin.len() && origin[i] == j;
                lemma_panel_of_key(k, all@[i].position);
                assert(all@[i].position == panel_of(k));
            }
            assert forall|i: int, j: int| 0 <= i < j < all@.len() implies (
            #[trigger] all@[i]).position != (#[trigger] all@[j]).position by {
                assert(origin[i] < origin[j]);
                assert(passed[origin[i]] != passed[origin[j]]);
            }
        }
        all
    }

    /// Goes back to the place (0, 0) to follow another wire.
    pub fn restart(&mut self)
        ensures
            final(self)@ == old(self)@.restart(),
    {
        self.current = (0, 0);
        self.steps = 0;
    }

    /// The length of the two wires together up to a place, if both pass it.
    pub fn combined_steps(&self, position: (i32, i32)) -> (r: Option<u64>)
        ensures
            r == (if self@.collides(key_of(position)) {
                Some((self@.line_1[key_of(position)] + self@.line_2[key_of(position)]) as u64)
            } else {
                None
            }),
    {
        let k = key(position);
        match (self.line_1.get(&k), self.line_2.get(&k)) {
            (Some(d1), Some(d2)) => Some(*d1 as u64 + *d2 as u64),
            _ => None,
        }
    }
}

/// Follows a whole wire from the place (0, 0).
pub fn populate_line(cc: &mut CollisionChecker, instructions: &Vec<Instruction>, line: usize)
    requires
        line == 1 || line == 2,
    ensures
        final(cc)@ == old(cc)@.populate(instructions@, line, instructions@.len()),
{
    cc.restart();
    let mut n: usize = 0;
    while n < instructions.len()
        invariant
            n <= instructions.len(),
            line == 1 || line == 2,
            cc@ == old(cc)@.populate(instructions@, line, n as nat),
        decreases instructions.len() - n,
    {
        cc.follow_line(&instructions[n], line);
        n += 1;
    }
}

/// The tracks of the first two wires of the input.
pub open spec fn laid(input: Seq<Seq<Instruction>>) -> Tracks {
    (Tracks { line_1: Map::empty(), line_2: Map::empty(), steps: 0, current: (0, 0) }).populate(
        input[0],
        1,
        input[0].len(),
    ).populate(input[1], 2, input[1].len())
}

/// The tracks of the first two wires of the input.
fn lay(input: &[Vec<Instruction>]) -> (cc: CollisionChecker)
    requires
        input@.len() >= 2,
    ensures
        cc@ == laid(wire_views(input@)),
{
    let mut cc = CollisionChecker::new();
    populate_line(&mut cc, &input[0], 1);
    populate_line(&mut cc, &input[1], 2);
    cc
}

/// The least distance from the place (0, 0) of a place where the first two
/// wires cross. `None` if there are fewer than two wires, or if they do not
/// cross.
pub fn part_one(input: &[Vec<Instruction>]) -> (r: Option<i64>)
    ensures
        match r {
            Some(d) => input@.len() >= 2 && (exists|p: (i32, i32)|
                laid(wire_views(input@)).collides(#[trigger] key_of(p)) && manhattan(p) == d) && (
            forall|p: (i32, i32)|
                laid(wire_views(input@)).collides(#[trigger] key_of(p)) ==> d <= manhattan(p)),
            None => input@.len() >= 2 ==> forall|p: (i32, i32)|
                !laid(wire_views(input@)).collides(#[trigger] key_of(p)),
        },
{
    if input.len() < 2 {
        return None;
    }
    let cc = lay(input);
    let crossings = cc.collisions();
    let mut best: Option<i64> = None;
    let mut n: usize = 0;
    while n < crossings.len()
        invariant
            n <= crossings.len(),
            forall|i: int| 0 <= i < crossings@.len() ==> cc@.crossing(#[trigger] crossings@[i]),
            n == 0 ==> best is None,
            n > 0 ==> best is Some,
            best matches Some(d) ==> (exists|i: int|
                0 <= i < n && manhattan((#[trigger] crossings@[i]).position) == d) && (forall|i: int|
                0 <= i < n ==> d <= manhattan((#[trigger] crossings@[i]).position)),
        decreases crossings.len() - n,
    {
        let c = crossings[n];
        let distance: i64 = (if c.position.0 < 0 {
            -(c.position.0 as i64)
        } else {
            c.position.0 as i64
        }) + (if c.position.1 < 0 {
            -(c.position.1 as i64)
        } else {
            c.position.1 as i64
        });
        best = match best {
            Some(d) => if d <= distance {
                Some(d)
            } else {
                Some(distance)
            },
            None => Some(distance),
        };
        n += 1;
    }
    proof {
        if best is Some {
            let d = best.unwrap();
            let i = choose|i: int|
                0 <= i < n && manhattan((#[trigger] crossings@[i]).position) == d;
            assert(cc@.collides(key_of(crossings@[i].position)));
            assert forall|p: (i32, i32)| cc@.collides(#[trigger] key_of(p)) implies d <= manhattan(
                p,
            ) by {
                let j = choose|j: int|
                    0 <= j < crossings@.len() && (#[trigger] crossings@[j]).position == panel_of(
                        key_of(p),
                    );
                lemma_panel_of_key(0, p);
            }
        } else {
            assert forall|p: (i32, i32)| !cc@.collides(#[trigger] key_of(p)) by {
                if cc@.collides(key_of(p)) {
                    let j = choose|j: int|
                        0 <= j < crossings@.len() && (#[trigger] crossings@[j]).position
                            == panel_of(key_of(p));
                }
            }
        }
    }
    best
}

/// The least length of the first two wires together up to a place where they
/// cross. `None` if there are fewer than two wires, or if they do not cross.
pub fn part_two(input: &[Vec<Instruction>]) -> (r: Option<u64>)
    ensures
        match r {
            Some(d) => input@.len() >= 2 && (exists|k: u64|
                laid(wire_views(input@)).collides(k) && #[trigger] laid(
                    wire_views(input@),
                ).line_1[k] + laid(wire_views(input@)).line_2[k] == d) && (forall|k: u64|
                laid(wire_views(input@)).collides(k) ==> d <= #[trigger] laid(
                    wire_views(input@),
                ).line_1[k] + laid(wire_views(input@)).line_2[k]),
            None => input@.len() >= 2 ==> forall|p: (i32, i32)|
                !laid(wire_views(input@)).collides(#[trigger] key_of(p)),
        },
{
    if input.len() < 2 {
        return None;
    }
    let cc = lay(input);
    let crossings = cc.collisions();
    let mut best: Option<u64> = None;
    let mut n: usize = 0;
    while n < crossings.len()
        invariant
            n <= crossings.len(),
            forall|i: int| 0 <= i < crossings@.len() ==> cc@.crossing(#[trigger] crossings@[i]),
            n == 0 ==> best is None,
            n > 0 ==> best is Some,
            best matches Some(d) ==> (exists|i: int|
                0 <= i < n && cc@.line_1[key_of((#[trigger] crossings@[i]).position)]
                    + cc@.line_2[key_of(crossings@[i].position)] == d) && (forall|i: int|
                0 <= i < n ==> d <= cc@.line_1[key_of((#[trigger] crossings@[i]).position)]
                    + cc@.line_2[key_of(crossings@[i].position)]),
        decreases crossings.len() - n,
    {
        let c = crossings[n];
        let both: u64 = match cc.combined_steps(c.position) {
            Some(both) => both,
            None => 0,
        };
        best = match best {
            Some(d) => if d <= both {
                Some(d)
            } else {
                Some(both)
            },
            None => Some(both),
        };
        n += 1;
    }
    proof {
        if best is Some {
            let d = best.unwrap();
            let i = choose|i: int|
                0 <= i < n && cc@.line_1[key_of((#[trigger] crossings@[i]).position)]
                    + cc@.line_2[key_of(crossings@[i].position)] == d;
            assert(cc@.collides(key_of(crossings@[i].position)));
            assert forall|k: u64| cc@.collides(k) implies d <= #[trigger] cc@.line_1[k]
                + cc@.line_2[k] by {
                let j = choose|j: int|
                    0 <= j < crossings@.len() && (#[trigger] crossings@[j]).position == panel_of(k);
                lemma_panel_of_key(k, (0, 0));
            }
        } else {
            assert forall|p: (i32, i32)| !cc@.collides(#[trigger] key_of(p)) by {
                if cc@.collides(key_of(p)) {
                    let j = choose|j: int|
                        0 <= j < crossings@.len() && (#[trigger] crossings@[j]).position
                            == panel_of(key_of(p));
                }
            }
        }
    }
    best
}

} // verus!
