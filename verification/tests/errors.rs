//! What cannot be read is refused, with the reason.

use pgn_nag::{ParseError, Score, parse};

#[test]
fn illegal_move_names_the_ply() {
    match parse("1. e4 e5 2. Ke3 *") {
        Err(ParseError::IllegalMove { ply, san }) => {
            assert_eq!(ply, 3);
            assert_eq!(san, "Ke3");
        }
        other => panic!("{other:?}"),
    }
}

#[test]
fn unreadable_move_is_illegal() {
    match parse("1. e4 xyz *") {
        Err(ParseError::IllegalMove { ply, san }) => assert_eq!((ply, san.as_str()), (2, "xyz")),
        other => panic!("{other:?}"),
    }
}

#[test]
fn bad_eval_is_reported_as_written() {
    match parse("1. e4 { [%eval abc] } *") {
        Err(ParseError::BadEvalTag(t)) => assert_eq!(t, "[%eval abc]"),
        other => panic!("{other:?}"),
    }
    match parse("1. e4 { [%eval 0.5") {
        Err(ParseError::BadEvalTag(t)) => assert_eq!(t, "[%eval 0.5"),
        other => panic!("{other:?}"),
    }
}

#[test]
fn bad_eval_wins_over_a_later_illegal_move() {
    match parse("1. e4 { [%eval 1.234] } Ke5 *") {
        Err(ParseError::BadEvalTag(t)) => assert_eq!(t, "[%eval 1.234]"),
        other => panic!("{other:?}"),
    }
}

#[test]
fn eval_forms() {
    let g = parse(
        "1. e4 { [%eval -1.5,7] } e5 { [%eval .5] } 2. Nf3 { [%eval 3.] } Nc6 { [%eval +2] } 3. Bb5 { [%eval #+4] } *",
    )
    .unwrap()
    .remove(0);
    let scores: Vec<Score> = g.plies.iter().map(|p| p.eval.unwrap().score).collect();
    assert_eq!(
        scores,
        [Score::Cp(-150), Score::Cp(50), Score::Cp(300), Score::Cp(200), Score::Mate(4)]
    );
    assert_eq!(g.plies[0].eval.unwrap().depth, Some(7));
}

#[test]
fn eval_out_of_range_is_bad() {
    assert!(matches!(parse("1. e4 { [%eval 30000000.00] } *"), Err(ParseError::BadEvalTag(_))));
    assert!(matches!(parse("1. e4 { [%eval 0.1,99999999999] } *"), Err(ParseError::BadEvalTag(_))));
    assert!(parse("1. e4 { [%eval -21474836.48] } *").is_ok());
}

#[test]
fn comments_without_annotations_are_kept() {
    let g = parse("1. e4 { a fine move } { [%clk 0:01:00] } *").unwrap().remove(0);
    // Each comment is kept as written between its braces; two on one move
    // are joined by a space.
    assert_eq!(g.plies[0].comment.as_deref(), Some(" a fine move   [%clk 0:01:00] "));
    assert!(g.plies[0].eval.is_none());
    assert!(g.plies[0].pv.is_empty());
}

#[test]
fn empty_text_has_no_games() {
    assert!(parse("").unwrap().is_empty());
    assert!(parse("  \n\n").unwrap().is_empty());
}

#[test]
fn unterminated_game_ends_as_unknown() {
    let games = parse("[Event \"x\"]\n\n1. e4 e5").unwrap();
    assert_eq!(games.len(), 1);
    assert_eq!(games[0].outcome, "*");
    assert_eq!(games[0].plies.len(), 2);
}

#[test]
fn move_number_joined_to_the_move() {
    let g = parse("1.e4 e5 2.Nf3 1-0").unwrap().remove(0);
    let sans: Vec<&str> = g.plies.iter().map(|p| p.san.as_str()).collect();
    assert_eq!(sans, ["e4", "e5", "Nf3"]);
}

#[test]
fn escaped_tag_values_round_trip() {
    let text = "[Event \"A \\\"quoted\\\" name \\\\ here\"]\n\n1. e4 *\n\n";
    let games = parse(text).unwrap();
    assert_eq!(games[0].tags[0].1, "A \"quoted\" name \\ here");
    assert_eq!(pgn_nag::pgn::write(&games), text);
}

#[test]
fn long_movetext_wraps_at_eighty_columns() {
    // A word that does not fit on the line starts the next one.
    let text = "\n1. e4\n{ a long comment that takes most of the line so that the next word wraps } 1...\ne5 2. Nf3 *\n\n";
    let games = parse(text).unwrap();
    assert_eq!(games[0].plies.len(), 3);
    let out = pgn_nag::pgn::write(&games);
    assert_eq!(out, text);
    assert!(out.lines().all(|l| l.chars().count() <= 80));
    let one_line = "1. e4 { a long comment that takes most of the line so that the next word wraps } 1... e5 2. Nf3 *";
    assert_eq!(pgn_nag::pgn::write(&parse(one_line).unwrap()), text);
}

#[test]
fn games_are_played_from_the_given_position() {
    // From the initial position the same text reads as with `parse`.
    let start = shakmaty::Chess::default();
    let games = pgn_nag::pgn::parse_from("1. e4 e5 2. Nf3 *", &start).unwrap();
    assert_eq!(games[0].plies.len(), 3);
    // From the position after 1. e4, White's 1. e4 is no longer possible.
    let after_e4 = games[0].plies[0].position.clone();
    match pgn_nag::pgn::parse_from("1. e4 e5 *", &after_e4) {
        Err(ParseError::IllegalMove { ply, san }) => assert_eq!((ply, san.as_str()), (1, "e4")),
        other => panic!("{other:?}"),
    }
    // The first illegal move of the first game that has one is named.
    match parse("1. e4 e5 *\n\n1. d4 d5 2. Ke3 *\n\n1. Ke2 *") {
        Err(ParseError::IllegalMove { ply, san }) => assert_eq!((ply, san.as_str()), (3, "Ke3")),
        other => panic!("{other:?}"),
    }
}

#[test]
fn comments_are_written_as_read() {
    let g = parse("1. e4 {x} *").unwrap();
    assert_eq!(g[0].plies[0].comment.as_deref(), Some("x"));
    assert_eq!(pgn_nag::pgn::write(&g), "\n1. e4 {x} *\n\n");
    // An empty comment joined to the next is written back unchanged.
    let once = pgn_nag::pgn::write(&parse("1. e4 {} {x} *").unwrap());
    assert_eq!(once, "\n1. e4 { x} *\n\n");
    assert_eq!(pgn_nag::pgn::write(&parse(&once).unwrap()), once);
}
