use aoc19::intcode::Intcode;
use aoc19::solutions::day1;
use aoc19::solutions::day2;
use aoc19::solutions::day5;
use aoc19::solutions::day7;
use aoc19::solutions::day7::ProcessChain;
use aoc19::solutions::day8;
use aoc19::solutions::day8::Image;

#[test]
fn day1_part1_fuel_examples() {
    assert_eq!(day1::part1(&day1::Input::new(vec![12])), 2);
    assert_eq!(day1::part1(&day1::Input::new(vec![14])), 2);
    assert_eq!(day1::part1(&day1::Input::new(vec![1969])), 654);
    assert_eq!(day1::part1(&day1::Input::new(vec![100756])), 33583);
    assert_eq!(day1::part1(&day1::Input::new(vec![12, 14])), 4);
}

#[test]
fn day1_part2_iterated_fuel_examples() {
    assert_eq!(day1::part2(&day1::Input::new(vec![14])), 2);
    assert_eq!(day1::part2(&day1::Input::new(vec![1969])), 966);
    assert_eq!(day1::part2(&day1::Input::new(vec![100756])), 50346);
}

#[test]
fn day2_part1_patches_and_reads_cell_zero() {
    // After patching cells 1 and 2 to 12 and 2 the add reads cells 12 and 2
    // and stores their sum, 40 + 2, into cell 0.
    let code = Intcode::new(vec![1, 0, 0, 0, 99, 0, 0, 0, 0, 0, 0, 0, 40]);
    assert_eq!(day2::part1(&code), 42);
}

#[test]
fn day2_part2_finds_the_first_matching_pair() {
    // The pair (5, 6) is the first whose run leaves 19690720 in cell 0.
    let code = Intcode::new(vec![1, 0, 0, 0, 99, 19690000, 720]);
    assert_eq!(day2::part2(&code), 506);
}

#[test]
fn day2_part2_ignores_pairs_after_the_first_hit() {
    // The pair (1, 9) hits the target; the later pair (3, 3) would stall on
    // an input request, but the search never reaches it.
    let code = Intcode::new(vec![1, 0, 0, 0, 1006, 0, 10, 99, 0, 19690719, 3, 0, 99]);
    assert_eq!(day2::part2(&code), 109);
}

#[test]
fn day5_part1_echoes_the_first_system_id() {
    let code = Intcode::new(vec![3, 0, 4, 0, 99]);
    assert_eq!(day5::part1(&code), 1);
}

#[test]
fn day5_part2_echoes_the_second_system_id() {
    let code = Intcode::new(vec![3, 0, 4, 0, 99]);
    assert_eq!(day5::part2(&code), 5);
}

#[test]
fn day7_chain_single_pass() {
    let code = Intcode::new(vec![
        3, 15, 3, 16, 1002, 16, 10, 16, 1, 16, 15, 15, 4, 15, 99, 0, 0,
    ]);
    let mut chain = ProcessChain::replicate(&code, 5);
    assert_eq!(chain.init(&vec![4, 3, 2, 1, 0]), Ok(()));
    assert_eq!(chain.feed(0), Ok(43210));
}

#[test]
fn day7_part1_maximal_single_pass_signal() {
    let code = Intcode::new(vec![
        3, 15, 3, 16, 1002, 16, 10, 16, 1, 16, 15, 15, 4, 15, 99, 0, 0,
    ]);
    assert_eq!(day7::part1(&code), 43210);
}

#[test]
fn day7_feedback_loop_for_one_phase_setting() {
    let code = Intcode::new(vec![
        3, 26, 1001, 26, -4, 26, 3, 27, 1002, 27, 2, 27, 1, 27, 26, 27, 4, 27, 1001, 28, -1, 28,
        1005, 28, 6, 99, 0, 0, 5,
    ]);
    let mut chain = ProcessChain::replicate(&code, 5);
    assert_eq!(chain.init(&vec![9, 8, 7, 6, 5]), Ok(()));
    assert_eq!(chain.do_loop(0), Ok(139629729));
}

#[test]
fn day7_part2_maximal_feedback_signal() {
    let code = Intcode::new(vec![
        3, 26, 1001, 26, -4, 26, 3, 27, 1002, 27, 2, 27, 1, 27, 26, 27, 4, 27, 1001, 28, -1, 28,
        1005, 28, 6, 99, 0, 0, 5,
    ]);
    assert_eq!(day7::part2(&code), 139629729);
}

#[test]
fn day8_digit_conversion() {
    assert_eq!(day8::digit_to_u8('0'), Some(0));
    assert_eq!(day8::digit_to_u8('7'), Some(7));
    assert_eq!(day8::digit_to_u8('9'), Some(9));
    assert_eq!(day8::digit_to_u8('a'), None);
    assert_eq!(day8::digit_to_u8(' '), None);
}

#[test]
fn day8_image_get_and_set() {
    let mut img = Image::new(2, 2, vec![0, 1, 2, 3, 4, 5, 6, 7]);
    assert_eq!(img.get(0, 0, 0), 0);
    assert_eq!(img.get(0, 1, 0), 1);
    assert_eq!(img.get(1, 0, 0), 2);
    assert_eq!(img.get(1, 1, 1), 7);
    img.set(0, 0, 1, 9);
    assert_eq!(img.get(0, 0, 1), 9);
}

#[test]
fn day8_layer_views() {
    let img = Image::new(2, 2, vec![0, 1, 2, 3, 4, 5, 6, 7]);
    let second = img.layer(1);
    assert_eq!(second.getn(0), 4);
    assert_eq!(second.get(1, 1), 7);
    assert_eq!(second.pixels(), vec![4, 5, 6, 7]);
    let all = img.layers();
    assert_eq!(all.len(), 2);
    assert_eq!(all[0].pixels(), vec![0, 1, 2, 3]);
}

#[test]
fn day8_flatten_keeps_first_opaque_pixel() {
    let img = Image::new(2, 2, vec![0, 2, 2, 2, 1, 1, 2, 2, 2, 2, 1, 2, 0, 0, 0, 0]);
    let flat = img.flatten();
    assert_eq!(flat.get(0, 0, 0), 0);
    assert_eq!(flat.get(0, 1, 0), 1);
    assert_eq!(flat.get(1, 0, 0), 1);
    assert_eq!(flat.get(1, 1, 0), 0);
}

#[test]
fn day8_part1_takes_the_layer_with_fewest_zeros() {
    let input = format!("{}{}{}", "1".repeat(100), "2".repeat(50), "0".repeat(150));
    assert_eq!(day8::part1(&input), 5000);
}

#[test]
fn day8_part1_prefers_the_first_tied_layer() {
    let layer1 = format!("{}{}", "1".repeat(100), "2".repeat(50));
    let layer2 = format!("{}{}", "1".repeat(120), "2".repeat(30));
    let input = format!("{}{}", layer1, layer2);
    assert_eq!(day8::part1(&input), 5000);
}

#[test]
fn day8_part2_renders_the_stacked_image() {
    // One all-black layer under one all-transparent layer.
    let input = format!("{}{}", "2".repeat(150), "0".repeat(150));
    let row = format!("{}\n", "\u{2588}".repeat(25));
    let expected = format!("Layer 0:\n{}", row.repeat(6));
    assert_eq!(day8::part2(&input), expected);
}

#[test]
fn day8_part2_mixes_pixels_per_cell() {
    let top = format!("01{}", "2".repeat(148));
    let bottom = "1".repeat(150);
    let input = format!("{}{}", top, bottom);
    let out = day8::part2(&input);
    let first_row: String = out.lines().nth(1).unwrap().to_string();
    let mut expected_row = String::from("\u{2588}\u{2591}");
    expected_row.push_str(&"\u{2591}".repeat(23));
    assert_eq!(first_row, expected_row);
}

#[test]
fn day1_parse_reads_one_weight_per_line() {
    let input = day1::Input::parse("12\n14\n1969").unwrap();
    assert_eq!(day1::part1(&input), 2 + 2 + 654);
}

#[test]
fn day1_parse_rejects_blank_lines() {
    assert!(day1::Input::parse("12\n\n14").is_err());
    assert!(day1::Input::parse("12\n14\n").is_err());
    assert!(day1::Input::parse("").is_err());
}
