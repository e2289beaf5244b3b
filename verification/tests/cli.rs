//! Reading the command line.
//!
//! No terminal is involved, so every branch can be pinned by a test.
//! Arguments are the bytes the system passed.

use pgn_nag::cli::{Command, parse};

fn args(items: &[&str]) -> Vec<Vec<u8>> {
    items.iter().map(|s| s.as_bytes().to_vec()).collect()
}

#[test]
fn no_arguments_opens_the_library() {
    assert_eq!(parse(args(&[])), Command::Library);
}

#[test]
fn view_takes_exactly_one_path() {
    assert_eq!(
        parse(args(&["view", "a.pgn"])),
        Command::Open(b"a.pgn".to_vec())
    );
    assert_eq!(parse(args(&["view"])), Command::Usage);
    assert_eq!(parse(args(&["view", "a.pgn", "extra"])), Command::Usage);
}

#[test]
fn help_is_accepted_in_three_forms() {
    for form in ["-h", "--help", "help"] {
        assert_eq!(parse(args(&[form])), Command::Help, "{form}");
    }
    assert_eq!(parse(args(&["--help", "extra"])), Command::Usage);
}

#[test]
fn unknown_command_is_usage() {
    assert_eq!(parse(args(&["analyze"])), Command::Usage);
}

#[test]
fn non_utf8_argument_is_not_treated_as_absent() {
    let broken = vec![0xff, 0xfe];
    assert_eq!(parse(vec![broken]), Command::Usage);
}

#[test]
fn non_utf8_path_is_kept() {
    let path = vec![0xff, b'.', b'p', b'g', b'n'];
    assert_eq!(
        parse(vec![b"view".to_vec(), path.clone()]),
        Command::Open(path)
    );
}

#[test]
fn view_is_case_sensitive() {
    assert_eq!(parse(args(&["VIEW", "a.pgn"])), Command::Usage);
    assert_eq!(parse(args(&["-H"])), Command::Usage);
}
