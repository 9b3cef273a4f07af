//! The puzzle modules built on the interpreter core.

pub mod day1;
pub mod day2;
pub mod day5;
pub mod day7;
pub mod day8;
