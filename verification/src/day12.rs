//! Moons that pull at each other, their energy, and the time after which
//! their motion repeats.

use crate::arith::{
    lemma_quotient_and_remainder, magnitude, quotient, remainder, truncated_quotient,
    truncated_remainder,
};
use crate::text::{as_i32, chars, lines, parse_i32, split, split_at, split_lines, views};
use vstd::arithmetic::div_mod::{
    lemma_add_mod_noop, lemma_fundamental_div_mod, lemma_mul_mod_noop_left, lemma_sub_mod_noop,
};
use vstd::prelude::*;

verus! {

/// The number of steps that [`part_one`] simulates.
pub const STEPS: usize = 1000;

/// The number of steps after which [`part_two`] gives up.
pub const STEP_BUDGET: i64 = 0x7fff_ffff_ffff_ffff;

/// Three coordinates.
#[derive(Debug, Clone, Copy, PartialEq, Eq, Hash, Structural)]
pub struct Vec3 {
    /// The first coordinate.
    pub x: i32,
    /// The second coordinate.
    pub y: i32,
    /// The third coordinate.
    pub z: i32,
}

/// A moon: where it is and how it moves.
#[derive(Debug, Clone, Copy, PartialEq, Eq, Structural)]
pub struct Moon {
    /// The position.
    pub pos: Vec3,
    /// The velocity.
    pub vel: Vec3,
}

/// The number that `s` denotes as a coordinate: an optional minus sign and at
/// least one digit, of 32 bits.
pub open spec fn coordinate(s: Seq<char>) -> Option<i32> {
    if s.len() > 0 && s[0] == '+' {
        None
    } else {
        as_i32(s)
    }
}

/// The coordinate that a piece holds behind a label.
pub open spec fn labelled(piece: Seq<char>, label: Seq<char>) -> Option<i32> {
    if label.is_prefix_of(piece) {
        coordinate(piece.skip(label.len() as int))
    } else {
        None
    }
}

/// The coordinates that a text denotes. The text has the form
/// `<x=1, y=-2, z=3>`, with nothing before or behind it.
pub open spec fn vec3(s: Seq<char>) -> Option<Vec3> {
    let pieces = split(s, ',');
    if pieces.len() == 3 && pieces[2].len() > 0 && pieces[2].last() == '>' {
        match (
            labelled(pieces[0], seq!['<', 'x', '=']),
            labelled(pieces[1], seq![' ', 'y', '=']),
            labelled(pieces[2].drop_last(), seq![' ', 'z', '=']),
        ) {
            (Some(x), Some(y), Some(z)) => Some(Vec3 { x, y, z }),
            _ => None,
        }
    } else {
        None
    }
}

/// The coordinates that the lines denote, if each of them denotes some.
pub open spec fn all_vec3(all: Seq<Seq<char>>) -> Option<Seq<Vec3>> {
    if forall|i: int| 0 <= i < all.len() ==> (#[trigger] vec3(all[i])) is Some {
        Some(Seq::new(all.len(), |i: int| vec3(all[i]).unwrap()))
    } else {
        None
    }
}

/// The pull on a coordinate by another: one towards the other.
pub open spec fn pull(me: i32, other: i32) -> i32 {
    if me > other {
        -1i32
    } else if me < other {
        1i32
    } else {
        0i32
    }
}

impl Vec3 {
    /// All coordinates zero.
    pub open spec fn zero() -> Vec3 {
        Vec3 { x: 0, y: 0, z: 0 }
    }

    /// The sum of the absolute values of the coordinates.
    pub open spec fn energy(self) -> int {
        magnitude(self.x as int) + magnitude(self.y as int) + magnitude(self.z as int)
    }

    /// The sum of two vectors. Coordinates wrap around.
    pub open spec fn plus(self, other: Vec3) -> Vec3 {
        Vec3 {
            x: self.x.wrapping_add(other.x),
            y: self.y.wrapping_add(other.y),
            z: self.z.wrapping_add(other.z),
        }
    }

    /// The pull at a position by another position.
    pub open spec fn pulled_by(self, other: Vec3) -> Vec3 {
        Vec3 { x: pull(self.x, other.x), y: pull(self.y, other.y), z: pull(self.z, other.z) }
    }
}

/// The change in velocity of a moon at `me`: the sum of the pulls by the
/// moons.
pub open spec fn delta(me: Vec3, moons: Seq<Moon>) -> Vec3
    decreases moons.len(),
{
    if moons.len() == 0 {
        Vec3::zero()
    } else {
        delta(me, moons.drop_last()).plus(me.pulled_by(moons.last().pos))
    }
}

/// The moons one step later: each velocity has changed by the pull of all the
/// moons, and each position by the new velocity.
pub open spec fn step(moons: Seq<Moon>) -> Seq<Moon> {
    Seq::new(
        moons.len(),
        |i: int|
            Moon {
                pos: moons[i].pos.plus(moons[i].vel.plus(delta(moons[i].pos, moons))),
                vel: moons[i].vel.plus(delta(moons[i].pos, moons)),
            },
    )
}

/// The moons `n` steps later.
pub open spec fn steps(moons: Seq<Moon>, n: nat) -> Seq<Moon>
    decreases n,
{
    if n == 0 {
        moons
    } else {
        step(steps(moons, (n - 1) as nat))
    }
}

/// The moons at rest at the given positions.
pub open spec fn at_rest(positions: Seq<Vec3>) -> Seq<Moon> {
    Seq::new(positions.len(), |i: int| Moon { pos: positions[i], vel: Vec3::zero() })
}

/// The energy of the moons: for each moon, the energy of its position times
/// the energy of its velocity.
pub open spec fn total_energy(moons: Seq<Moon>) -> int
    decreases moons.len(),
{
    if moons.len() == 0 {
        0
    } else {
        total_energy(moons.drop_last()) + moons.last().pos.energy() * moons.last().vel.energy()
    }
}

/// The result of Euclid's algorithm on two numbers: the first if the second
/// is zero, and otherwise the result for the second and the remainder of the
/// first by the second. For numbers that are not negative this is their
/// greatest common divisor; see [`lemma_gcd_of`].
pub open spec fn gcd_of(a: int, b: int) -> int
    decreases magnitude(b),
{
    if b == 0 {
        a
    } else {
        gcd_of(b, remainder(a, b))
    }
}

/// The result of Euclid's algorithm on numbers that are not negative divides
/// both, and every number that divides both divides it.
pub proof fn lemma_gcd_of(a: int, b: int, d: int)
    requires
        a >= 0,
        b >= 0,
    ensures
        gcd_of(a, b) >= 0,
        gcd_of(a, b) > 0 ==> a % gcd_of(a, b) == 0 && b % gcd_of(a, b) == 0,
        gcd_of(a, b) == 0 ==> a == 0 && b == 0,
        d > 0 && a % d == 0 && b % d == 0 && gcd_of(a, b) > 0 ==> gcd_of(a, b) % d == 0,
    decreases b,
{
    if b > 0 {
        let g = gcd_of(b, a % b);
        let q = a / b;
        let r = a % b;
        lemma_gcd_of(b, r, d);
        lemma_fundamental_div_mod(a, b);
        if g > 0 {
            lemma_mul_mod_noop_left(b, q, g);
            lemma_add_mod_noop(b * q, r, g);
        }
        if d > 0 && a % d == 0 && b % d == 0 {
            lemma_mul_mod_noop_left(b, q, d);
            lemma_sub_mod_noop(a, b * q, d);
        }
    }
}

/// The result of Euclid's algorithm is no farther from zero than the farther
/// of the two numbers.
pub proof fn lemma_gcd_of_bound(a: int, b: int)
    ensures
        magnitude(gcd_of(a, b)) <= if magnitude(a) >= magnitude(b) {
            magnitude(a)
        } else {
            magnitude(b)
        },
    decreases magnitude(b),
{
    if b != 0 {
        lemma_quotient_and_remainder(a, b);
        lemma_gcd_of_bound(b, remainder(a, b));
    }
}

/// The least common multiple of two numbers, as their product over the
/// result of Euclid's algorithm, rounded towards zero.
pub open spec fn lcm_of(a: int, b: int) -> int {
    quotient(a * b, gcd_of(a, b))
}

/// Whether all the moons have no velocity along the first, the second or the
/// third axis, for `axis` 0, 1 or 2.
pub open spec fn still(moons: Seq<Moon>, axis: int) -> bool {
    forall|i: int|
        0 <= i < moons.len() ==> (if axis == 0 {
            (#[trigger] moons[i]).vel.x
        } else if axis == 1 {
            moons[i].vel.y
        } else {
            moons[i].vel.z
        }) == 0
}

/// The step numbers at which the moons are first still along each axis,
/// found by simulating from step `t` on. `seen` holds what has been found
/// before step `t`. There is no result if one of them is not found up to the
/// step `STEP_BUDGET`.
pub open spec fn halves(moons: Seq<Moon>, t: int, seen: (Option<i64>, Option<i64>, Option<i64>)) -> Option<
    (i64, i64, i64),
>
    decreases STEP_BUDGET - t,
{
    if t >= STEP_BUDGET || t < 0 {
        None
    } else {
        let next = step(moons);
        let found = (
            if seen.0 is None && still(next, 0) {
                Some(t as i64)
            } else {
                seen.0
            },
            if seen.1 is None && still(next, 1) {
                Some(t as i64)
            } else {
                seen.1
            },
            if seen.2 is None && still(next, 2) {
                Some(t as i64)
            } else {
                seen.2
            },
        );
        match found {
            (Some(x), Some(y), Some(z)) => Some((x, y, z)),
            _ => halves(next, t + 1, found),
        }
    }
}

/// The number of steps after which the motion repeats, from the step numbers
/// at which the moons are first still along each axis: twice their least
/// common multiple. There is no result if a least common multiple or its
/// double is more than 64 bits hold.
pub open spec fn period(cycles: (i64, i64, i64)) -> Option<i64> {
    let xy = lcm_of(cycles.0 as int, cycles.1 as int);
    let xyz = lcm_of(xy, cycles.2 as int);
    if gcd_of(cycles.0 as int, cycles.1 as int) != 0 && i64::MIN <= xy <= i64::MAX && gcd_of(
        xy,
        cycles.2 as int,
    ) != 0 && i64::MIN <= xyz <= i64::MAX && i64::MIN <= xyz * 2 <= i64::MAX {
        Some((xyz * 2) as i64)
    } else {
        None
    }
}

/// Reads the positions, one to a line.
pub fn input_generator(input: &str) -> (r: Option<Vec<Vec3>>)
    ensures
        match r {
            Some(all) => all_vec3(lines(input@)) == Some(all@),
            None => all_vec3(lines(input@)) is None,
        },
{
    let text = chars(input);
    let rows = split_lines(&text);
    let mut all: Vec<Vec3> = Vec::new();
    let mut i: usize = 0;
    while i < rows.len()
        invariant
            i <= rows.len(),
            views(rows@) == lines(input@),
            all@.len() == i,
            forall|j: int| 0 <= j < i ==> vec3(#[trigger] views(rows@)[j]) == Some(all@[j]),
        decreases rows.len() - i,
    {
        assert(views(rows@)[i as int] == rows@[i as int]@);
        match Vec3::parse(&rows[i]) {
            Some(v) => {
                all.push(v);
            },
            None => {
                return None;
            },
        }
        i += 1;
    }
    proof {
        assert(all@ =~= all_vec3(lines(input@)).unwrap());
    }
    Some(all)
}

/// Reads the coordinate that a piece holds behind a label of three
/// characters, up to the character `end`.
fn parse_labelled(piece: &Vec<char>, a: char, b: char, c: char, end: usize) -> (r: Option<i32>)
    requires
        end <= piece.len(),
    ensures
        r == labelled(piece@.take(end as int), seq![a, b, c]),
{
    let ghost label = seq![a, b, c];
    let ghost text = piece@.take(end as int);
    if end < 3 || piece[0] != a || piece[1] != b || piece[2] != c {
        proof {
            if label.is_prefix_of(text) {
                assert(text[0] == label[0] && text[1] == label[1] && text[2] == label[2]);
            }
        }
        return None;
    }
    assert(label.is_prefix_of(text)) by {
        assert(text.subrange(0, 3) =~= label);
    }
    let mut digits: Vec<char> = Vec::new();
    let mut i: usize = 3;
    while i < end
        invariant
            3 <= i <= end <= piece.len(),
            digits@ == piece@.subrange(3, i as int),
        decreases end - i,
    {
        digits.push(piece[i]);
        proof {
            assert(piece@.subrange(3, i + 1) =~= piece@.subrange(3, i as int).push(piece@[i as int]));
        }
        i += 1;
    }
    proof {
        assert(piece@.subrange(3, end as int) =~= text.skip(3));
    }
    if digits.len() > 0 && digits[0] == '+' {
        None
    } else {
        parse_i32(&digits)
    }
}

impl Vec3 {
    /// All coordinates zero.
    pub fn new() -> (v: Vec3)
        ensures
            v == Vec3::zero(),
    {
        Vec3 { x: 0, y: 0, z: 0 }
    }

    /// Reads coordinates from their characters.
    pub fn parse(s: &Vec<char>) -> (r: Option<Vec3>)
        ensures
            r == vec3(s@),
    {
        let pieces = split_at(s, ',');
        if pieces.len() != 3 {
            return None;
        }
        assert(views(pieces@)[0] == pieces@[0]@);
        assert(views(pieces@)[1] == pieces@[1]@);
        assert(views(pieces@)[2] == pieces@[2]@);
        let last: usize = pieces[2].len();
        if last == 0 || pieces[2][last - 1] != '>' {
            return None;
        }
        proof {
            assert(pieces@[0]@.take(pieces@[0]@.len() as int) =~= pieces@[0]@);
            assert(pieces@[1]@.take(pieces@[1]@.len() as int) =~= pieces@[1]@);
            assert(pieces@[2]@.take(last - 1) =~= pieces@[2]@.drop_last());
        }
        let x = parse_labelled(&pieces[0], '<', 'x', '=', pieces[0].len());
        let y = parse_labelled(&pieces[1], ' ', 'y', '=', pieces[1].len());
        let z = parse_labelled(&pieces[2], ' ', 'z', '=', last - 1);
        match (x, y, z) {
            (Some(x), Some(y), Some(z)) => Some(Vec3 { x, y, z }),
            _ => None,
        }
    }

    /// Reads coordinates from a text of the form `<x=1, y=-2, z=3>`.
    pub fn from_str(s: &str) -> (r: Option<Vec3>)
        ensures
            r == vec3(s@),
    {
        Vec3::parse(&chars(s))
    }

    /// The sum of the absolute values of the coordinates.
    pub fn sum(&self) -> (r: i64)
        ensures
            r == self.energy(),
    {
        let x: i64 = if self.x < 0 {
            -(self.x as i64)
        } else {
            self.x as i64
        };
        let y: i64 = if self.y < 0 {
            -(self.y as i64)
        } else {
            self.y as i64
        };
        let z: i64 = if self.z < 0 {
            -(self.z as i64)
        } else {
            self.z as i64
        };
        x + y + z
    }

    /// Adds another vector to this one. Coordinates wrap around.
    pub fn add(&mut self, other: &Self)
        ensures
            *final(self) == old(self).plus(*other),
    {
        self.x = self.x.wrapping_add(other.x);
        self.y = self.y.wrapping_add(other.y);
        self.z = self.z.wrapping_add(other.z);
    }
}

/// The pull on a coordinate by another.
fn pull_of(me: i32, other: i32) -> (r: i32)
    ensures
        r == pull(me, other),
{
    if me > other {
        -1
    } else if me < other {
        1
    } else {
        0
    }
}

impl Moon {
    /// A moon at rest.
    pub fn new_from_pos(pos: Vec3) -> (moon: Moon)
        ensures
            moon == (Moon { pos, vel: Vec3::zero() }),
    {
        Moon { pos, vel: Vec3::new() }
    }

    /// The change in velocity of this moon under the pull of the moons.
    pub fn delta_vel(&self, moons: &[Moon]) -> (vel: Vec3)
        ensures
            vel == delta(self.pos, moons@),
    {
        let mut vel = Vec3::new();
        let mut i: usize = 0;
        while i < moons.len()
            invariant
                i <= moons.len(),
                vel == delta(self.pos, moons@.take(i as int)),
            decreases moons.len() - i,
        {
            proof {
                assert(moons@.take(i + 1).drop_last() =~= moons@.take(i as int));
            }
            let m = &moons[i];
            let by = Vec3 {
                x: pull_of(self.pos.x, m.pos.x),
                y: pull_of(self.pos.y, m.pos.y),
                z: pull_of(self.pos.z, m.pos.z),
            };
            vel.add(&by);
            i += 1;
        }
        proof {
            assert(moons@.take(i as int) =~= moons@);
        }
        vel
    }

    /// Moves the moon by its velocity.
    pub fn move_moon(&mut self)
        ensures
            *final(self) == (Moon { pos: old(self).pos.plus(old(self).vel), ..*old(self) }),
    {
        let vel = self.vel;
        self.pos.add(&vel);
    }
}

/// The moons at rest at the given positions.
fn place(input: &[Vec3]) -> (moons: Vec<Moon>)
    ensures
        moons@ == at_rest(input@),
{
    let mut moons: Vec<Moon> = Vec::new();
    let mut i: usize = 0;
    while i < input.len()
        invariant
            i <= input.len(),
            moons@.len() == i,
            forall|j: int| 0 <= j < i ==> #[trigger] moons@[j] == at_rest(input@)[j],
        decreases input.len() - i,
    {
        moons.push(Moon::new_from_pos(input[i]));
        i += 1;
    }
    proof {
        assert(moons@ =~= at_rest(input@));
    }
    moons
}

/// Moves the moons on by one step.
fn advance(moons: &mut Vec<Moon>)
    ensures
        final(moons)@ == step(old(moons)@),
{
    let ghost before = moons@;
    let mut delta_vel: Vec<Vec3> = Vec::new();
    let mut i: usize = 0;
    while i < moons.len()
        invariant
            i <= moons.len(),
            moons@ == before,
            delta_vel@.len() == i,
            forall|j: int| 0 <= j < i ==> #[trigger] delta_vel@[j] == delta(before[j].pos, before),
        decreases moons.len() - i,
    {
        let dv = moons[i].delta_vel(moons.as_slice());
        delta_vel.push(dv);
        i += 1;
    }
    let mut i: usize = 0;
    while i < moons.len()
        invariant
            i <= moons.len(),
            moons@.len() == before.len(),
            delta_vel@.len() == before.len(),
            forall|j: int|
                0 <= j < before.len() ==> #[trigger] delta_vel@[j] == delta(before[j].pos, before),
            forall|j: int| 0 <= j < i ==> #[trigger] moons@[j] == step(before)[j],
            forall|j: int| i <= j < before.len() ==> #[trigger] moons@[j] == before[j],
        decreases moons.len() - i,
    {
        let mut m = moons[i];
        m.vel.add(&delta_vel[i]);
        m.move_moon();
        moons.set(i, m);
        i += 1;
    }
    proof {
        assert(moons@ =~= step(before));
    }
}

/// The energy of the moons after 1000 steps from rest at the given
/// positions. `None` if that is more than 64 bits hold.
pub fn part_one(input: &[Vec3]) -> (r: Option<i64>)
    ensures
        r == (if total_energy(steps(at_rest(input@), STEPS as nat)) <= i64::MAX {
            Some(total_energy(steps(at_rest(input@), STEPS as nat)) as i64)
        } else {
            None
        }),
{
    let mut moons = place(input);
    let mut n: usize = 0;
    while n < STEPS
        invariant
            n <= STEPS,
            moons@ == steps(at_rest(input@), n as nat),
        decreases STEPS - n,
    {
        advance(&mut moons);
        n += 1;
    }
    let mut total: i64 = 0;
    let mut i: usize = 0;
    while i < moons.len()
        invariant
            i <= moons.len(),
            0 <= total,
            moons@ == steps(at_rest(input@), STEPS as nat),
            total == total_energy(moons@.take(i as int)),
        decreases moons.len() - i,
    {
        proof {
            assert(moons@.take(i + 1).drop_last() =~= moons@.take(i as int));
            assert(moons@.take(i + 1).last() == moons@[i as int]);
        }
        let p: i64 = moons[i].pos.sum();
        let v: i64 = moons[i].vel.sum();
        assert(0 <= p * v) by (nonlinear_arith)
            requires
                0 <= p,
                0 <= v,
        ;
        let added = match p.checked_mul(v) {
            Some(energy) => total.checked_add(energy),
            None => None,
        };
        total = match added {
            Some(total) => total,
            None => {
                proof {
                    lemma_energy_grows(moons@, i + 1);
                }
                return None;
            },
        };
        i += 1;
    }
    proof {
        assert(moons@.take(i as int) =~= moons@);
    }
    Some(total)
}

/// The energy of some of the moons is not more than that of all.
pub proof fn lemma_energy_grows(moons: Seq<Moon>, n: int)
    requires
        0 <= n <= moons.len(),
    ensures
        0 <= total_energy(moons.take(n)) <= total_energy(moons),
    decreases moons.len() - n,
{
    lemma_energy_grows_from_zero(moons.take(n));
    if n < moons.len() {
        lemma_energy_grows(moons, n + 1);
        assert(moons.take(n + 1).drop_last() =~= moons.take(n));
        let last = moons.take(n + 1).last();
        assert(0 <= last.pos.energy() * last.vel.energy()) by (nonlinear_arith)
            requires
                0 <= last.pos.energy(),
                0 <= last.vel.energy(),
        ;
    } else {
        assert(moons.take(n) =~= moons);
    }
}

/// The energy of moons is not negative.
pub proof fn lemma_energy_grows_from_zero(moons: Seq<Moon>)
    ensures
        0 <= total_energy(moons),
    decreases moons.len(),
{
    if moons.len() > 0 {
        lemma_energy_grows_from_zero(moons.drop_last());
        let last = moons.last();
        assert(0 <= last.pos.energy() * last.vel.energy()) by (nonlinear_arith)
            requires
                0 <= last.pos.energy(),
                0 <= last.vel.energy(),
        ;
    }
}

/// The result of Euclid's algorithm on two numbers: for numbers that are not
/// negative, their greatest common divisor.
pub fn gcd(a: i64, b: i64) -> (r: i64)
    ensures
        r == gcd_of(a as int, b as int),
    decreases magnitude(b as int),
{
    match truncated_remainder(a, b) {
        Some(rest) => gcd(b, rest),
        None => a,
    }
}

/// The least common multiple of two numbers: their product over the result
/// of Euclid's algorithm. `None` if that result is zero, as it is for two
/// zeros, or if the multiple does not fit in 64 bits.
pub fn lcm(a: i64, b: i64) -> (r: Option<i64>)
    ensures
        r == (if gcd_of(a as int, b as int) != 0 && i64::MIN <= lcm_of(a as int, b as int)
            <= i64::MAX {
            Some(lcm_of(a as int, b as int) as i64)
        } else {
            None
        }),
{
    let g = gcd(a, b);
    if g == 0 {
        return None;
    }
    assert(-0x4000_0000_0000_0000_0000_0000_0000_0000 <= a * b
        <= 0x4000_0000_0000_0000_0000_0000_0000_0000) by (nonlinear_arith)
        requires
            -0x8000_0000_0000_0000 <= a <= 0x8000_0000_0000_0000,
            -0x8000_0000_0000_0000 <= b <= 0x8000_0000_0000_0000,
    ;
    let product: i128 = (a as i128) * (b as i128);
    let x: i128 = if product < 0 {
        -product
    } else {
        product
    };
    let y: i128 = if g < 0 {
        -(g as i128)
    } else {
        g as i128
    };
    let m: i128 = x / y;
    assert(0 <= m <= x) by (nonlinear_arith)
        requires
            m == x / y,
            0 <= x,
            0 < y,
    ;
    let q: i128 = if (product < 0) == (g < 0) {
        m
    } else {
        -m
    };
    if q > 0x7fff_ffff_ffff_ffff || q < -0x8000_0000_0000_0000 {
        None
    } else {
        Some(q as i64)
    }
}

/// Whether all the moons have no velocity along an axis.
fn is_still(moons: &Vec<Moon>, axis: usize) -> (r: bool)
    ensures
        r == still(moons@, axis as int),
{
    let mut i: usize = 0;
    while i < moons.len()
        invariant
            i <= moons.len(),
            forall|j: int|
                0 <= j < i ==> (if axis == 0 {
                    (#[trigger] moons@[j]).vel.x
                } else if axis == 1 {
                    moons@[j].vel.y
                } else {
                    moons@[j].vel.z
                }) == 0,
        decreases moons.len() - i,
    {
        let v: i32 = if axis == 0 {
            moons[i].vel.x
        } else if axis == 1 {
            moons[i].vel.y
        } else {
            moons[i].vel.z
        };
        if v != 0 {
            return false;
        }
        i += 1;
    }
    true
}

/// The number of steps after which the moons are back at rest at the given
/// positions, taken to be [`period`] of the step numbers that [`halves`]
/// finds. `None` if it finds none, or if the period is more than 64 bits hold.
pub fn part_two(input: &[Vec3]) -> (r: Option<i64>)
    ensures
        r == match halves(at_rest(input@), 1, (None, None, None)) {
            Some(cycles) => period(cycles),
            None => None,
        },
{
    let mut moons = place(input);
    let mut x_cycle: Option<i64> = None;
    let mut y_cycle: Option<i64> = None;
    let mut z_cycle: Option<i64> = None;
    let mut t: i64 = 1;
    let mut cycles: Option<(i64, i64, i64)> = None;
    while t < STEP_BUDGET
        invariant_except_break
            cycles is None,
        invariant
            1 <= t <= STEP_BUDGET,
            halves(moons@, t as int, (x_cycle, y_cycle, z_cycle)) == halves(
                at_rest(input@),
                1,
                (None, None, None),
            ),
        ensures
            cycles == halves(at_rest(input@), 1, (None, None, None)),
        decreases STEP_BUDGET - t,
    {
        advance(&mut moons);
        if x_cycle.is_none() && is_still(&moons, 0) {
            x_cycle = Some(t);
        }
        if y_cycle.is_none() && is_still(&moons, 1) {
            y_cycle = Some(t);
        }
        if z_cycle.is_none() && is_still(&moons, 2) {
            z_cycle = Some(t);
        }
        match (x_cycle, y_cycle, z_cycle) {
            (Some(x), Some(y), Some(z)) => {
                cycles = Some((x, y, z));
                break ;
            },
            _ => {},
        }
        t = t + 1;
    }
    let (x, y, z) = match cycles {
        Some(cycles) => cycles,
        None => {
            return None;
        },
    };
    let xy: i64 = match lcm(x, y) {
        Some(xy) => xy,
        None => {
            return None;
        },
    };
    let xyz: i64 = match lcm(xy, z) {
        Some(xyz) => xyz,
        None => {
            return None;
        },
    };
    xyz.checked_mul(2)
}

} // verus!
