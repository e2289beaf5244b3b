//! Which directory entries are listed, and in which order.

use pgn_nag::library::{is_pgn, pgn_names};

fn entry(name: &str, is_file: bool) -> (Vec<u8>, bool) {
    (name.as_bytes().to_vec(), is_file)
}

fn names(found: Vec<Vec<u8>>) -> Vec<String> {
    found
        .into_iter()
        .map(|n| String::from_utf8(n).unwrap())
        .collect()
}

#[test]
fn lists_pgn_files_sorted() {
    let found = pgn_names(vec![
        entry("b.pgn", true),
        entry("a.pgn", true),
        entry("c.txt", true),
    ]);
    assert_eq!(
        names(found),
        ["a.pgn", "b.pgn"],
        "拡張子で絞り、名前順に並べること"
    );
}

#[test]
fn does_not_descend_into_subdirectories() {
    // A subdirectory is an entry that is not a file; what it holds is not read.
    let found = pgn_names(vec![entry("top.pgn", true), entry("sub", false)]);
    assert_eq!(names(found), ["top.pgn"]);
}

#[test]
fn keeps_unannotated_files() {
    let found = pgn_names(vec![entry("plain.pgn", true)]);
    assert_eq!(found.len(), 1);
}

#[test]
fn ignores_directories_named_like_pgn() {
    let found = pgn_names(vec![entry("real.pgn", true), entry("fake.pgn", false)]);
    assert_eq!(names(found), ["real.pgn"]);
}

#[test]
fn extension_is_matched_in_any_case() {
    assert!(is_pgn(b"game.pgn"));
    assert!(is_pgn(b"GAME.PGN"));
    assert!(is_pgn(b"x.tar.Pgn"));
    assert!(is_pgn(b"x..pgn"));
    assert!(!is_pgn(b".pgn"), "a hidden file has no extension");
    assert!(!is_pgn(b"pgn"));
    assert!(!is_pgn(b"game.pgn.txt"));
    assert!(!is_pgn(b"game.pgnx"));
    assert!(!is_pgn(b"game."));
    assert!(!is_pgn(b""));
}

#[test]
fn shorter_name_sorts_first() {
    let found = pgn_names(vec![
        entry("ab.pgn", true),
        entry("a.pgn", true),
        entry("B.pgn", true),
        entry("a.pgn.pgn", true),
    ]);
    assert_eq!(names(found), ["B.pgn", "a.pgn", "a.pgn.pgn", "ab.pgn"]);
}
