//! Fuel needed to launch a list of modules.

use crate::text::{all_i32, chars, lines, parse_all_i32, split_lines};
use vstd::prelude::*;

verus! {

/// The fuel needed for a mass: a third of it, rounded towards zero, less two.
pub open spec fn mass_fuel(x: int) -> int {
    (if x >= 0 {
        x / 3
    } else {
        -((-x) / 3)
    }) - 2
}

/// The fuel needed for a mass and for the fuel itself: the fuel for the mass,
/// then the fuel for that fuel, and so on for as long as it is positive.
pub open spec fn total_mass_fuel(x: int) -> int
    decreases x,
{
    if mass_fuel(x) > 0 {
        mass_fuel(x) + total_mass_fuel(mass_fuel(x))
    } else {
        0
    }
}

/// The sum of `mass_fuel` over a list of masses.
pub open spec fn sum_fuel(masses: Seq<i32>) -> int
    decreases masses.len(),
{
    if masses.len() == 0 {
        0
    } else {
        sum_fuel(masses.drop_last()) + mass_fuel(masses.last() as int)
    }
}

/// The sum of `total_mass_fuel` over a list of masses.
pub open spec fn sum_total_fuel(masses: Seq<i32>) -> int
    decreases masses.len(),
{
    if masses.len() == 0 {
        0
    } else {
        sum_total_fuel(masses.drop_last()) + total_mass_fuel(masses.last() as int)
    }
}

/// The fuel for a mass and its fuel is never negative, and less than the mass
/// when there is any.
pub proof fn lemma_total_mass_fuel_bounds(x: int)
    ensures
        0 <= total_mass_fuel(x),
        x >= 0 ==> total_mass_fuel(x) <= x,
    decreases x,
{
    if mass_fuel(x) > 0 {
        lemma_total_mass_fuel_bounds(mass_fuel(x));
    }
}

/// The sum of the fuel of `n` masses lies within `n` times the range of one.
pub proof fn lemma_sum_fuel_bounds(masses: Seq<i32>)
    ensures
        -0x3000_0000 * masses.len() <= sum_fuel(masses) <= 0x3000_0000 * masses.len(),
        0 <= sum_total_fuel(masses) <= 0x8000_0000 * masses.len(),
    decreases masses.len(),
{
    if masses.len() > 0 {
        lemma_sum_fuel_bounds(masses.drop_last());
        lemma_total_mass_fuel_bounds(masses.last() as int);
    }
}

/// Parses each line as a mass.
pub fn generator_input(input: &str) -> (r: Option<Vec<i32>>)
    ensures
        match r {
            Some(masses) => all_i32(lines(input@)) == Some(masses@),
            None => all_i32(lines(input@)) is None,
        },
{
    let text = chars(input);
    let pieces = split_lines(&text);
    parse_all_i32(&pieces)
}

/// Calculates the fuel necessary for a given mass.
pub fn calc_mass(x: &i32) -> (fuel: i32)
    ensures
        fuel == mass_fuel(*x as int),
{
    *x / 3 - 2
}

/// Calculates the fuel necessary for a given mass and for that fuel in turn.
pub fn calc_total_mass(x: &i32) -> (fuel: i32)
    ensures
        fuel == total_mass_fuel(*x as int),
{
    let mut total: i32 = 0;
    let mut rest: i32 = *x;
    loop
        invariant
            total + total_mass_fuel(rest as int) == total_mass_fuel(*x as int),
            0 <= total,
            rest >= 0 ==> total + rest <= *x,
            rest < 0 ==> total == 0,
        decreases rest as int + 0x1_0000_0000,
    {
        let fuel: i32 = calc_mass(&rest);
        if fuel <= 0 {
            return total;
        }
        total = total + fuel;
        rest = fuel;
    }
}

/// The fuel for all the masses, each taken by itself. `None` if that is more
/// than the result can hold.
pub fn part_one(input: &[i32]) -> (r: Option<i32>)
    ensures
        r == (if i32::MIN <= sum_fuel(input@) <= i32::MAX {
            Some(sum_fuel(input@) as i32)
        } else {
            None
        }),
{
    let mut total: i128 = 0;
    let mut i: usize = 0;
    while i < input.len()
        invariant
            i <= input.len(),
            total == sum_fuel(input@.take(i as int)),
        decreases input.len() - i,
    {
        proof {
            assert(input@.take(i + 1).drop_last() =~= input@.take(i as int));
            lemma_sum_fuel_bounds(input@.take(i as int));
        }
        total = total + calc_mass(&input[i]) as i128;
        i += 1;
    }
    proof {
        assert(input@.take(i as int) =~= input@);
    }
    if -0x8000_0000 <= total && total <= 0x7fff_ffff {
        Some(total as i32)
    } else {
        None
    }
}

/// The fuel for all the masses, each with the fuel for its fuel. `None` if
/// that is more than the result can hold.
pub fn part_two(input: &[i32]) -> (r: Option<i32>)
    ensures
        r == (if sum_total_fuel(input@) <= i32::MAX {
            Some(sum_total_fuel(input@) as i32)
        } else {
            None
        }),
{
    let mut total: i128 = 0;
    let mut i: usize = 0;
    while i < input.len()
        invariant
            i <= input.len(),
            total == sum_total_fuel(input@.take(i as int)),
        decreases input.len() - i,
    {
        proof {
            assert(input@.take(i + 1).drop_last() =~= input@.take(i as int));
            lemma_sum_fuel_bounds(input@.take(i as int));
            lemma_total_mass_fuel_bounds(input@[i as int] as int);
        }
        total = total + calc_total_mass(&input[i]) as i128;
        i += 1;
    }
    proof {
        assert(input@.take(i as int) =~= input@);
        lemma_sum_fuel_bounds(input@);
    }
    if total <= 0x7fff_ffff {
        Some(total as i32)
    } else {
        None
    }
}

} // verus!
