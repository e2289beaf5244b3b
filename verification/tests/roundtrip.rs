//! Reading an annotated PGN and writing it back.
//!
//! The input is fixed text, so no engine version can change the outcome.

use pgn_nag::{Score, parse};

/// A game annotated as the analysis writes it: every position but the final
/// checkmate carries an evaluation, laid out as python-chess exports it.
const SAMPLE: &str = r#"[Event "Casual game"]
[Site "?"]
[Date "2024.01.01"]
[Round "?"]
[White "Alice"]
[Black "Bob"]
[Result "0-1"]
[Annotator "Stockfish 18"]

1. d4 { [%eval 0.32,18] [%pv g8f6 c2c4 e7e6 g1f3 d7d5 c1g5] } 1... e6
{ [%eval 0.25,18] } 2. e3 { [%eval 0.18,18] } 2... Qe7
{ [%eval 0.11,18] [%pv g8f6 g4f3] } 3. Bb5 { [%eval 0.04,18] } 3... Qc5
{ [%eval -0.03,18] } 4. Ba4 { [%eval -0.10,18] } 4... Nf6 { [%eval -0.17,18] }
5. Nf3 { [%eval -0.24,18] } 5... Ng8 { [%eval -0.31,18] } 6. Nc3
{ [%eval -0.38,18] } 6... Nf6 { [%eval -0.45,18] } 7. O-O { [%eval -0.52,18] }
7... Ng8 { [%eval -0.59,18] [%pv g8f6 g4f3] } 8. Kh1 { [%eval -0.66,18] } 8...
Nf6 { [%eval -0.73,18] } 9. Ne5 { [%eval -0.80,18] } 9... Ng8
{ [%eval -0.87,18] } 10. f4 { [%eval -0.94,18] } 10... Nf6 { [%eval -1.01,18] }
11. Rf3 { [%eval -1.08,18] } 11... Ng8 { [%eval -1.15,18] } 12. Rh3
{ [%eval -1.22,18] } 12... Nf6 { [%eval -1.29,18] [%pv g8f6 g4f3] } 13. Qg4
{ [%eval -1.36,18] } 13... Ng8 { [%eval -1.43,18] } 14. Nb1
{ [%eval -1.50,18] } 14... Nf6 { [%eval -1.57,18] } 15. Nc3
{ [%eval -1.64,18] } 15... Ng8 { [%eval -1.71,18] } 16. Nb1
{ [%eval -1.78,18] } 16... Nf6 { [%eval -1.85,18] } 17. Nc3
{ [%eval -1.92,18] } 17... Ng8 { [%eval -1.99,18] [%pv g8f6 g4f3] } 18. Nb1
{ [%eval -2.06,18] } 18... Nf6 { [%eval -2.13,18] } 19. Nc3
{ [%eval -2.20,18] } 19... Ng8 { [%eval -2.27,18] } 20. Nb1
{ [%eval -2.34,18] } 20... Nf6 { [%eval -2.41,18] } 21. Nc3
{ [%eval -2.48,18] } 21... Ng8 { [%eval -2.55,18] } 22. Nb1
{ [%eval -2.62,18] } 22... Nf6 { [%eval -2.69,18] [%pv g8f6 g4f3] } 23. Nc3
{ [%eval -2.76,18] } 23... Ng8 { [%eval -2.83,18] } 24. Nb1
{ [%eval -2.90,18] } 24... Nf6 { [%eval -2.97,18] } 25. Nc3
{ [%eval -3.04,18] } 25... Ng8 { [%eval -3.11,18] } 26. Nb1
{ [%eval -3.18,18] } 26... Nf6 { [%eval -3.25,18] } 27. Nc3
{ [%eval -3.32,18] } 27... Ng8 { [%eval -3.39,18] [%pv g8f6 g4f3] } 28. Nb1
{ [%eval -3.46,18] } 28... Nf6 { [%eval -3.53,18] } 29. Nc3
{ [%eval -3.60,18] } 29... Ng8 { [%eval -3.67,18] } 30. Nb1
{ [%eval -3.74,18] } 30... Nf6 { [%eval -3.81,18] } 31. Nc3
{ [%eval -3.88,18] } 31... Ng8 { [%eval -3.95,18] } 32. Nb1
{ [%eval -4.02,18] } 32... Nf6 { [%eval -4.09,18] [%pv g8f6 g4f3] } 33. Nc3
{ [%eval -4.16,18] } 33... Ng8 { [%eval -4.23,18] } 34. Nb1
{ [%eval -4.30,18] } 34... Nf6 { [%eval -4.37,18] } 35. Nc3
{ [%eval -4.44,18] } 35... Ng8 { [%eval -4.51,18] } 36. Nb1
{ [%eval -4.58,18] } 36... Nf6 { [%eval -4.65,18] } 37. Nc3
{ [%eval -4.72,18] } 37... Ng8 { [%eval -4.79,18] [%pv g8f6 g4f3] } 38. Nb1
{ [%eval -4.86,18] } 38... Nf6 { [%eval -4.93,18] } 39. Nc3
{ [%eval -5.00,18] } 39... Ng8 { [%eval -5.07,18] } 40. Nb1
{ [%eval -5.14,18] } 40... Nf6 { [%eval -5.21,18] } 41. Nc3
{ [%eval -5.28,18] } 41... Ng8 { [%eval #-8,18] } 42. Nb1 { [%eval #-8,18] }
42... Nf6 { [%eval #-7,18] } 43. Nc3 { [%eval #-7,18] } 43... Ng8
{ [%eval #-6,18] } 44. Nb1 { [%eval #-6,18] } 44... Nf6 { [%eval #-5,18] } 45.
Nc3 { [%eval #-5,18] } 45... Ng8 { [%eval #-4,18] } 46. Nb1 { [%eval #-4,18] }
46... Nf6 { [%eval #-3,18] } 47. Nc3 { [%eval #-3,18] } 47... Ng8
{ [%eval #-2,18] } 48. Nb1 { [%eval #-2,18] } 48... Qc4 { [%eval #-1,18] } 49.
Nc3 { [%eval #-1,18] } 49... Qf1# 0-1

"#;

#[test]
fn reads_single_game() {
    let games = parse(SAMPLE).expect("読めること");
    assert_eq!(games.len(), 1);
    assert_eq!(games[0].outcome, "0-1");
}

#[test]
fn reads_every_ply() {
    let games = parse(SAMPLE).unwrap();
    assert_eq!(games[0].plies.len(), 98);
}

#[test]
fn final_mate_ply_has_no_eval() {
    let games = parse(SAMPLE).unwrap();
    let plies = &games[0].plies;
    let annotated = plies.iter().filter(|p| p.eval.is_some()).count();
    assert_eq!(annotated, 97, "checkmate の局面だけ注釈が落ちる");

    let last = plies.last().unwrap();
    assert_eq!(last.san, "Qf1#");
    assert!(last.eval.is_none());
}

#[test]
fn scores_are_white_pov() {
    let games = parse(SAMPLE).unwrap();
    let plies = &games[0].plies;

    // 1. d4 { [%eval 0.32,18] }
    let first = plies[0].eval.unwrap();
    assert_eq!(first.score, Score::Cp(32));
    assert_eq!(first.depth, Some(18));

    // 黒が優勢な局面は、指した側に依らず負の値になる
    let worst = plies
        .iter()
        .filter_map(|p| match p.eval.map(|e| e.score) {
            Some(Score::Cp(cp)) => Some(cp),
            _ => None,
        })
        .min()
        .unwrap();
    assert!(worst < 0, "黒優勢の局面が負で表現されること");
}

#[test]
fn mate_is_distinct_from_centipawns() {
    let games = parse(SAMPLE).unwrap();
    let mates: Vec<i32> = games[0]
        .plies
        .iter()
        .filter_map(|p| match p.eval.map(|e| e.score) {
            Some(Score::Mate(n)) => Some(n),
            _ => None,
        })
        .collect();
    assert_eq!(mates.len(), 16);
    assert!(mates.iter().all(|&n| n < 0), "黒が詰ませる側になる");
    assert_eq!(*mates.last().unwrap(), -1);
}

#[test]
fn reads_principal_variation() {
    let games = parse(SAMPLE).unwrap();
    // 1. d4 { [%pv g8f6 c2c4 e7e6 g1f3 d7d5 c1g5] }
    assert_eq!(
        games[0].plies[0].pv,
        ["g8f6", "c2c4", "e7e6", "g1f3", "d7d5", "c1g5"]
    );
}

#[test]
fn write_after_parse_is_byte_identical() {
    let games = parse(SAMPLE).unwrap();
    assert_eq!(pgn_nag::pgn::write(&games), SAMPLE);
}

#[test]
fn keeps_tags_in_order() {
    let games = parse(SAMPLE).unwrap();
    let names: Vec<&str> = games[0].tags.iter().map(|(k, _)| k.as_str()).collect();
    assert_eq!(
        names,
        ["Event", "Site", "Date", "Round", "White", "Black", "Result", "Annotator"]
    );
    assert_eq!(games[0].tag("Annotator"), "Stockfish 18");
    assert_eq!(games[0].tag("Opening"), "?");
}

#[test]
fn writing_what_was_read_is_stable() {
    let text = "[White \"A\"]\n1.e4 {  first } e5 (1... c5 2. Nf3) 2.Nf3 $1 ; rest\n *";
    let games = pgn_nag::parse(text).unwrap();
    let once = pgn_nag::pgn::write(&games);
    let again = pgn_nag::pgn::write(&pgn_nag::parse(&once).unwrap());
    assert_eq!(once, again);
}
