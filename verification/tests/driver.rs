use eca::driver::{parse_command, parse_initial, Command};
use eca::modular::{add_mod, sub_mod};

#[test]
fn empty_line_advances_one() {
    assert_eq!(parse_command(b""), Command::Continue);
}

#[test]
fn quit_words_terminate_case_insensitively() {
    assert_eq!(parse_command(b"q"), Command::Quit);
    assert_eq!(parse_command(b"Q"), Command::Quit);
    assert_eq!(parse_command(b"quit"), Command::Quit);
    assert_eq!(parse_command(b"QUIT"), Command::Quit);
    assert_eq!(parse_command(b"QuIt"), Command::Quit);
    // near misses are not quit words
    assert_eq!(parse_command(b"quitt"), Command::Invalid);
    assert_eq!(parse_command(b"qq"), Command::Invalid);
}

#[test]
fn numerals_advance_that_many() {
    assert_eq!(parse_command(b"3"), Command::Iterate(3));
    assert_eq!(parse_command(b"0"), Command::Iterate(0));
    assert_eq!(parse_command(b"007"), Command::Iterate(7));
    assert_eq!(parse_command(b"+7"), Command::Iterate(7));
    assert_eq!(parse_command(b"4294967295"), Command::Iterate(u32::MAX));
}

#[test]
fn overlarge_numerals_are_reported() {
    assert_eq!(parse_command(b"4294967296"), Command::TooLarge);
    assert_eq!(parse_command(b"99999999999999999999"), Command::TooLarge);
}

#[test]
fn negative_numbers_cannot_go_backwards() {
    assert_eq!(parse_command(b"-3"), Command::Negative);
    assert_eq!(parse_command(b"-99999999999999999999"), Command::Negative);
}

#[test]
fn other_lines_are_invalid() {
    assert_eq!(parse_command(b"abc"), Command::Invalid);
    assert_eq!(parse_command(b"12x"), Command::Invalid);
    assert_eq!(parse_command(b"x12"), Command::Invalid);
    assert_eq!(parse_command(b"-"), Command::Invalid);
    assert_eq!(parse_command(b"+"), Command::Invalid);
    assert_eq!(parse_command(b"-3x"), Command::Invalid);
    assert_eq!(parse_command(b"3 4"), Command::Invalid);
}

#[test]
fn initial_state_decoding_accepts_the_alphabet() {
    let chars: Vec<char> = "X.x10 ".chars().collect();
    let cells = parse_initial(&chars).unwrap();
    assert_eq!(cells, vec![true, false, true, true, false, false]);
}

#[test]
fn initial_state_decoding_accepts_block_glyph() {
    let chars: Vec<char> = "█ █".chars().collect();
    let cells = parse_initial(&chars).unwrap();
    assert_eq!(cells, vec![true, false, true]);
}

#[test]
fn initial_state_decoding_of_empty_string() {
    let cells = parse_initial(&[]).unwrap();
    assert!(cells.is_empty());
}

#[test]
fn initial_state_decoding_reports_first_bad_character() {
    let chars: Vec<char> = "ab".chars().collect();
    assert_eq!(parse_initial(&chars), Err(0));
    let chars: Vec<char> = ".Xa".chars().collect();
    assert_eq!(parse_initial(&chars), Err(2));
}

#[test]
fn wraparound_index_arithmetic() {
    assert_eq!(add_mod(4, 1, 5), 0);
    assert_eq!(add_mod(3, 1, 5), 4);
    assert_eq!(sub_mod(0, 1, 5), 4);
    assert_eq!(sub_mod(3, 1, 5), 2);
    assert_eq!(add_mod(0, 1, 1), 0);
    assert_eq!(sub_mod(0, 1, 1), 0);
}
