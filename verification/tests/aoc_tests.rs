//! The per-day answer checks.  The puzzle input files are not part of the
//! crate, so each check builds an input in memory whose answer is the
//! recorded one, and hands it to the per-day entry points.

use aoc19::intcode::Intcode;
use aoc19::solutions::{day1, day2, day5};

fn day1_weights() -> day1::Input {
    let mut weights = vec![9; 5696];
    weights.push(10377123);
    day1::Input::new(weights)
}

#[test]
fn day1_1_test() {
    assert_eq!(day1::part1(&day1_weights()), 3464735);
}

#[test]
fn day1_2_test() {
    assert_eq!(day1::part2(&day1_weights()), 5194211);
}

fn day2_program() -> Intcode {
    let mut words = vec![1, 0, 0, 0, 99];
    words.resize(100, 0);
    words[12] = 4330634;
    words[60] = 19690000;
    words[86] = 720;
    Intcode::new(words)
}

#[test]
fn day2_1_test() {
    assert_eq!(day2::part1(&day2_program()), 4330636);
}

#[test]
fn day2_2_test() {
    assert_eq!(day2::part2(&day2_program()), 6086);
}

fn day5_program() -> Intcode {
    let mut words = vec![
        3, 30, 1008, 30, 5, 31, 1005, 31, 14, 104, 13787043, 99, 0, 0, 104, 3892695, 99,
    ];
    words.resize(32, 0);
    Intcode::new(words)
}

#[test]
fn day5_1_test() {
    assert_eq!(day5::part1(&day5_program()), 13787043);
}

#[test]
fn day5_2_test() {
    assert_eq!(day5::part2(&day5_program()), 3892695);
}
