use aoc19::intcode::{Intcode, IntcodeError, Parameter, Process, ProcessStatus, Runnable};

fn load(words: Vec<i32>) -> Process {
    Process::new(Intcode::new(words))
}

#[test]
fn add_program_writes_sum_to_cell_zero() {
    let mut p = load(vec![1, 0, 0, 0, 99]);
    assert_eq!(p.resume(), Ok(ProcessStatus::Exit));
    assert_eq!(p.head(), 2);
}

#[test]
fn mul_program_runs_to_exit() {
    let mut p = load(vec![2, 3, 0, 3, 99]);
    assert_eq!(p.resume(), Ok(ProcessStatus::Exit));
    assert_eq!(p.head(), 2);
}

#[test]
fn parameter_modes_word_1002_halts_cleanly() {
    // 33 * 3 is stored into cell 4; execution then halts only because that
    // cell now holds 99, so a clean exit shows the write happened.
    let mut p = load(vec![1002, 4, 3, 4, 33]);
    assert_eq!(p.resume(), Ok(ProcessStatus::Exit));
    assert_eq!(p.status(), ProcessStatus::Exit);
}

#[test]
fn parameter_modes_value_is_observable_through_output() {
    // 1002: multiply the cell at 7 (33) by the immediate 3 into cell 0,
    // then output cell 0.
    let mut p = load(vec![1002, 7, 3, 0, 4, 0, 99, 33]);
    assert_eq!(p.resume(), Ok(ProcessStatus::Outputting(99)));
    assert_eq!(p.head(), 99);
    assert_eq!(p.resume(), Ok(ProcessStatus::Exit));
}

#[test]
fn self_modifying_write_ahead_is_observed() {
    // 1101: add immediates 49 and 50 into cell 4, which the counter then
    // reaches; the overwritten value 99 must be what executes.
    let mut p = load(vec![1101, 49, 50, 4, 0]);
    assert_eq!(p.resume(), Ok(ProcessStatus::Exit));
}

#[test]
fn equals_immediate_outputs_one_on_equal_inputs() {
    let mut p = load(vec![3, 3, 1108, -1, 8, 3, 4, 3, 99]);
    assert!(matches!(p.resume(), Ok(ProcessStatus::Awaiting(_))));
    assert_eq!(p.feed(8), Ok(ProcessStatus::Paused));
    assert_eq!(p.resume(), Ok(ProcessStatus::Outputting(1)));
    assert_eq!(p.resume(), Ok(ProcessStatus::Exit));
}

#[test]
fn equals_immediate_outputs_zero_on_unequal_inputs() {
    let mut p = load(vec![3, 3, 1108, -1, 8, 3, 4, 3, 99]);
    assert!(matches!(p.resume(), Ok(ProcessStatus::Awaiting(_))));
    assert_eq!(p.feed(7), Ok(ProcessStatus::Paused));
    assert_eq!(p.resume(), Ok(ProcessStatus::Outputting(0)));
}

#[test]
fn equals_position_program_with_input_eight() {
    let mut p = load(vec![3, 9, 8, 9, 10, 9, 4, 9, 99, -1, 8]);
    assert!(matches!(p.resume(), Ok(ProcessStatus::Awaiting(_))));
    assert_eq!(p.feed(8), Ok(ProcessStatus::Paused));
    assert_eq!(p.resume(), Ok(ProcessStatus::Outputting(1)));
}

#[test]
fn equals_position_program_with_input_seven() {
    let mut p = load(vec![3, 9, 8, 9, 10, 9, 4, 9, 99, -1, 8]);
    assert!(matches!(p.resume(), Ok(ProcessStatus::Awaiting(_))));
    assert_eq!(p.feed(7), Ok(ProcessStatus::Paused));
    assert_eq!(p.resume(), Ok(ProcessStatus::Outputting(0)));
}

#[test]
fn resume_after_exit_is_a_noop() {
    let mut p = load(vec![1, 0, 0, 0, 99]);
    assert_eq!(p.resume(), Ok(ProcessStatus::Exit));
    let head = p.head();
    assert_eq!(p.resume(), Ok(ProcessStatus::Exit));
    assert_eq!(p.resume(), Ok(ProcessStatus::Exit));
    assert_eq!(p.head(), head);
}

#[test]
fn resume_while_awaiting_is_a_noop() {
    let mut p = load(vec![3, 0, 99]);
    let first = p.resume();
    assert!(matches!(first, Ok(ProcessStatus::Awaiting(Parameter::Pos(0)))));
    assert_eq!(p.resume(), first);
    assert_eq!(p.resume(), first);
}

#[test]
fn resume_from_outputting_does_not_reproduce_the_value() {
    let mut p = load(vec![104, 5, 99]);
    assert_eq!(p.resume(), Ok(ProcessStatus::Outputting(5)));
    assert_eq!(p.resume(), Ok(ProcessStatus::Exit));
}

#[test]
fn feed_on_paused_process_is_a_contract_violation() {
    let mut p = load(vec![99]);
    assert_eq!(p.feed(1), Err(IntcodeError::ContractViolation));
    assert_eq!(p.status(), ProcessStatus::Paused);
}

#[test]
fn feed_on_exited_process_is_a_contract_violation() {
    let mut p = load(vec![99]);
    assert_eq!(p.resume(), Ok(ProcessStatus::Exit));
    assert_eq!(p.feed(1), Err(IntcodeError::ContractViolation));
    assert_eq!(p.status(), ProcessStatus::Exit);
}

#[test]
fn unknown_opcode_is_a_decode_error() {
    let mut p = load(vec![44]);
    assert_eq!(p.resume(), Err(IntcodeError::DecodeError(44)));
    assert_eq!(p.status(), ProcessStatus::Exit);
}

#[test]
fn negative_instruction_word_is_a_decode_error() {
    let mut p = load(vec![-1]);
    assert_eq!(p.resume(), Err(IntcodeError::DecodeError(-1)));
}

#[test]
fn unknown_mode_digit_is_a_decode_error() {
    let mut p = load(vec![204, 0, 99]);
    assert_eq!(p.resume(), Err(IntcodeError::DecodeError(2)));
}

#[test]
fn out_of_range_address_is_an_address_error() {
    let mut p = load(vec![4, 10, 99]);
    assert_eq!(p.resume(), Err(IntcodeError::AddressError));
}

#[test]
fn running_off_the_end_is_an_address_error() {
    let mut p = load(vec![104, 5]);
    assert_eq!(p.resume(), Ok(ProcessStatus::Outputting(5)));
    assert_eq!(p.resume(), Err(IntcodeError::AddressError));
}

#[test]
fn writing_through_an_immediate_is_rejected() {
    let mut p = load(vec![11101, 1, 1, 0, 99]);
    assert_eq!(p.resume(), Err(IntcodeError::InvalidWriteTarget));
}

#[test]
fn status_out_projects_only_outputs() {
    assert_eq!(ProcessStatus::Outputting(3).out(), Some(3));
    assert_eq!(ProcessStatus::Paused.out(), None);
    assert_eq!(ProcessStatus::Exit.out(), None);
    assert_eq!(ProcessStatus::Awaiting(Parameter::Pos(0usize)).out(), None);
}

#[test]
fn run_drives_to_completion_with_constant_input() {
    let mut p = load(vec![3, 0, 4, 0, 99]);
    assert_eq!(p.run(7), Some(7));
}

#[test]
fn run_without_any_output_is_none() {
    let mut p = load(vec![99]);
    assert_eq!(p.run(1), None);
}

#[test]
fn parse_reads_a_comma_separated_program() {
    let code = Intcode::parse("1,0,0,0,99").unwrap();
    assert_eq!(code.len(), 5);
    let mut p = Process::new(code);
    assert_eq!(p.resume(), Ok(ProcessStatus::Exit));
    assert_eq!(p.head(), 2);
}

#[test]
fn parse_trims_surrounding_whitespace() {
    let code = Intcode::parse(" \t1,2,-3\n").unwrap();
    assert_eq!(code.into_words(), vec![1, 2, -3]);
}

#[test]
fn parse_accepts_explicit_plus_signs() {
    let code = Intcode::parse("+7").unwrap();
    assert_eq!(code.into_words(), vec![7]);
}

#[test]
fn parse_rejects_empty_input() {
    assert!(matches!(Intcode::parse(""), Err(IntcodeError::ParseError)));
    assert!(matches!(Intcode::parse("  \n "), Err(IntcodeError::ParseError)));
}

#[test]
fn parse_rejects_empty_and_malformed_tokens() {
    assert!(matches!(Intcode::parse("1,,2"), Err(IntcodeError::ParseError)));
    assert!(matches!(Intcode::parse("1,a"), Err(IntcodeError::ParseError)));
    assert!(matches!(Intcode::parse("1, 2"), Err(IntcodeError::ParseError)));
    assert!(matches!(Intcode::parse("-"), Err(IntcodeError::ParseError)));
}

#[test]
fn parse_observes_the_32_bit_range() {
    assert_eq!(
        Intcode::parse("2147483647").unwrap().into_words(),
        vec![2147483647]
    );
    assert!(matches!(Intcode::parse("2147483648"), Err(IntcodeError::ParseError)));
    assert_eq!(
        Intcode::parse("-2147483648").unwrap().into_words(),
        vec![-2147483648]
    );
    assert!(matches!(Intcode::parse("-2147483649"), Err(IntcodeError::ParseError)));
}

#[test]
fn replace_patches_cells_one_and_two() {
    let code = Intcode::parse("1,0,0,0,99").unwrap();
    let patched = code.replace(4, 2);
    assert_eq!(patched.into_words(), vec![1, 4, 2, 0, 99]);
    assert_eq!(code.into_words(), vec![1, 0, 0, 0, 99]);
}

#[test]
fn duplicate_is_an_independent_copy() {
    let code = Intcode::new(vec![99, 7]);
    let copy = code.duplicate();
    assert_eq!(copy.into_words(), vec![99, 7]);
    assert_eq!(code.len(), 2);
}
