//! Verified solutions for the puzzles of December 2019, built around a small
//! virtual machine whose programs are arrays of integers.
//!
//! The machine is in [`intcode_computer`]. The days that drive it are 5, 7,
//! 9, 11, 13 and 15; day 2 has a first machine of its own. The modules
//! [`text`], [`arith`], [`grid`] and [`graph`] hold what several days share.

pub mod arith;
pub mod day1;
pub mod day10;
pub mod day11;
pub mod day12;
pub mod day13;
pub mod day14;
pub mod day15;
pub mod day16;
pub mod day2;
pub mod day3;
pub mod day4;
pub mod day5;
pub mod day6;
pub mod day7;
pub mod day8;
pub mod day9;
pub mod graph;
pub mod grid;
pub mod intcode_computer;
pub mod text;
