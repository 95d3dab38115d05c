//! Invocation flags, integer text and small helpers.

use ced::models::Direction;
use ced::num::{isize_to_string, parse_isize, parse_usize};
use ced::parse::{Flag, FlagType, Parser};
use ced::text::{split_chars, str_eq, str_to_chars};

fn words(ws: &[&str]) -> Vec<String> {
    ws.iter().map(|w| w.to_string()).collect()
}

#[test]
fn plain_words_become_arguments() {
    let mut p = Parser::new();
    let flags = p.parse_from_vec(&words(&["file.csv"]));
    assert_eq!(flags.len(), 1);
    assert!(matches!(flags[0].ftype, FlagType::Argument));
    assert_eq!(flags[0].option, "file.csv");
}

#[test]
fn flags_take_their_option_word() {
    let mut p = Parser::new();
    let flags = p.parse_from_vec(&words(&["--schema", "s.csv", "data.csv"]));
    assert_eq!(flags.len(), 2);
    assert!(matches!(flags[0].ftype, FlagType::Schema));
    assert_eq!(flags[0].option, "s.csv");
    assert!(matches!(flags[1].ftype, FlagType::Argument));
    assert_eq!(flags[1].option, "data.csv");
}

#[test]
fn version_exits_early_and_alone() {
    let mut p = Parser::new();
    let flags = p.parse_from_vec(&words(&["data.csv", "--version", "--schema", "s.csv"]));
    assert_eq!(flags.len(), 1);
    assert!(matches!(flags[0].ftype, FlagType::Version));
    assert!(flags[0].early_exit);
}

#[test]
fn unknown_dashed_words_are_dropped() {
    let mut p = Parser::new();
    let flags = p.parse_from_vec(&words(&["--bogus", "--confirm"]));
    assert_eq!(flags.len(), 1);
    assert!(matches!(flags[0].ftype, FlagType::Confirm));
}

#[test]
fn constructors_carry_their_kinds() {
    assert!(matches!(Flag::help().ftype, FlagType::Help));
    assert!(Flag::help().early_exit);
    assert!(matches!(Flag::command().ftype, FlagType::Command));
    assert!(Flag::command().need_option);
    assert!(matches!(Flag::empty().ftype, FlagType::NoFlag));
}

#[test]
fn parse_isize_accepts_exactly_integer_text() {
    assert_eq!(parse_isize("0"), Some(0));
    assert_eq!(parse_isize("-42"), Some(-42));
    assert_eq!(parse_isize("+42"), Some(42));
    assert_eq!(parse_isize("007"), Some(7));
    assert_eq!(parse_isize(&isize::MAX.to_string()), Some(isize::MAX));
    assert_eq!(parse_isize(&isize::MIN.to_string()), Some(isize::MIN));
    assert_eq!(parse_isize(""), None);
    assert_eq!(parse_isize("+"), None);
    assert_eq!(parse_isize("1 2"), None);
    assert_eq!(parse_isize("99999999999999999999999"), None);
}

#[test]
fn parse_usize_accepts_exactly_unsigned_text() {
    assert_eq!(parse_usize("15"), Some(15));
    assert_eq!(parse_usize("+3"), Some(3));
    assert_eq!(parse_usize("-3"), None);
    assert_eq!(parse_usize(""), None);
    assert_eq!(parse_usize(&usize::MAX.to_string()), Some(usize::MAX));
    assert_eq!(parse_usize("99999999999999999999999"), None);
}

#[test]
fn isize_to_string_prints_canonically() {
    assert_eq!(isize_to_string(0), "0");
    assert_eq!(isize_to_string(9), "9");
    assert_eq!(isize_to_string(10), "10");
    assert_eq!(isize_to_string(-1), "-1");
    assert_eq!(isize_to_string(120040), "120040");
    assert_eq!(isize_to_string(isize::MIN), isize::MIN.to_string());
}

#[test]
fn directions_map_to_unit_vectors() {
    assert_eq!(Direction::Up.to_vector(), (1, 0));
    assert_eq!(Direction::Right.to_vector(), (0, 1));
    assert_eq!(Direction::Left.to_vector(), (-1, 0));
    assert_eq!(Direction::Down.to_vector(), (0, -1));
}

#[test]
fn text_helpers_split_and_compare() {
    assert!(str_eq("abc", "abc"));
    assert!(!str_eq("abc", "abd"));
    let parts = split_chars(&str_to_chars("a,b,,c"), ',');
    assert_eq!(parts.len(), 4);
    assert_eq!(parts[0], vec!['a']);
    assert_eq!(parts[2], Vec::<char>::new());
}
