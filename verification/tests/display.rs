//! What the viewer shows beside the board: the bar, the list of moves and
//! the status line.

use pgn_nag::view::evalbar;
use pgn_nag::view::moves::{lines, render_eval, row, scroll_offset};
use pgn_nag::view::status::{self, pv_line};
use pgn_nag::{Eval, Score, label, parse};

fn cp(n: i32) -> Option<Eval> {
    Some(Eval { score: Score::Cp(n), depth: None })
}

fn filled(eval: Option<Eval>) -> usize {
    evalbar::column(eval).iter().filter(|&&c| c == '█').count()
}

#[test]
fn bar_is_blank_without_an_evaluation() {
    assert_eq!(evalbar::column(None), vec![' '; 8]);
}

#[test]
fn bar_fills_from_the_bottom() {
    assert_eq!(evalbar::column(cp(0)), ['░', '░', '░', '░', '█', '█', '█', '█']);
}

#[test]
fn bar_scale() {
    assert_eq!(filled(cp(0)), 4, "互角は 4 段");
    assert_eq!(filled(cp(49)), 4);
    assert_eq!(filled(cp(50)), 5, "半分は切り上げる");
    assert_eq!(filled(cp(-50)), 4);
    assert_eq!(filled(cp(-51)), 3);
    assert_eq!(filled(cp(350)), 8);
    assert_eq!(filled(cp(400)), 8, "4 ポーンで振り切る");
    assert_eq!(filled(cp(-400)), 0);
    assert_eq!(filled(cp(i32::MAX)), 8);
    assert_eq!(filled(cp(i32::MIN)), 0);
    let mate = |n| Some(Eval { score: Score::Mate(n), depth: Some(3) });
    assert_eq!(filled(mate(2)), 8);
    assert_eq!(filled(mate(-2)), 0);
    assert_eq!(filled(mate(0)), 0);
}

#[test]
fn scores_render_as_signed_pawns_or_mates() {
    let e = |s| Eval { score: s, depth: None };
    assert_eq!(render_eval(e(Score::Cp(32))), "+0.32");
    assert_eq!(render_eval(e(Score::Cp(0))), "+0.00");
    assert_eq!(render_eval(e(Score::Cp(-5))), "-0.05");
    assert_eq!(render_eval(e(Score::Cp(-123))), "-1.23");
    assert_eq!(render_eval(e(Score::Cp(1000))), "+10.00");
    assert_eq!(render_eval(e(Score::Cp(i32::MIN))), "-21474836.48");
    assert_eq!(render_eval(e(Score::Mate(3))), "#3");
    assert_eq!(render_eval(e(Score::Mate(-1))), "#-1");
    assert_eq!(Score::Cp(7).render(), "+0.07");
}

const GAME: &str = "[White \"Alice\"]\n[Black \"Bob\"]\n[Date \"2024.01.01\"]\n\n1. d4 { [%eval 0.32,18] [%pv g8f6 c2c4 e7e6 g1f3 d7d5 c1g5] } 1... Nf6 { [%eval #-3] } 2. c4 *\n";

#[test]
fn rows_of_the_move_list() {
    let game = parse(GAME).unwrap().remove(0);
    assert_eq!(row(0, &game.plies[0]), "1.     d4      +0.32");
    assert_eq!(row(1, &game.plies[1]), "1...   Nf6     #-3");
    assert_eq!(row(2, &game.plies[2]), "2.     c4      ");
    let shown = lines(&game.plies, 2, 2);
    assert_eq!(shown.len(), 2);
    assert_eq!(shown[0].0, "1...   Nf6     #-3");
    assert!(shown[0].1, "現在の手に印が付く");
    assert_eq!(shown[1].0, "2.     c4      ");
    assert!(!shown[1].1);
    assert_eq!(scroll_offset(2, 3, 2), 1);
    assert_eq!(scroll_offset(2, 3, 5), 0);
    assert_eq!(scroll_offset(3, 5, 1), 2);
}

#[test]
fn one_row_window_still_shows_the_current_move() {
    assert_eq!(scroll_offset(2, 5, 1), 1);
    assert_eq!(scroll_offset(0, 5, 10), 0);
    assert_eq!(scroll_offset(3, 20, 6), 0);
    assert_eq!(scroll_offset(10, 20, 6), 7);
    assert_eq!(scroll_offset(20, 20, 6), 14);
    let game = parse(GAME).unwrap().remove(0);
    let shown = lines(&game.plies, 2, 1);
    assert_eq!(shown.len(), 1);
    assert_eq!(shown[0].0, "1...   Nf6     #-3");
    assert!(shown[0].1);
    assert!(lines(&game.plies, 0, 1).iter().all(|r| !r.1));
}

#[test]
fn status_line_converts_the_variation() {
    let game = parse(GAME).unwrap().remove(0);
    assert_eq!(
        status::line(Some(&game.plies[0]), 0),
        "   +0.32   depth 18   PV 1... Nf6 2. c4 e6 3. Nf3 d5 4. Bg5"
    );
    assert_eq!(status::line(Some(&game.plies[1]), 1), "     #-3");
    assert_eq!(status::line(Some(&game.plies[2]), 2), "");
    assert_eq!(status::line(None, 0), "");
}

#[test]
fn variation_numbers_white_moves_and_the_first() {
    let sans: Vec<String> = ["e5", "Nf3", "Nc6"].iter().map(|s| s.to_string()).collect();
    assert_eq!(pv_line(&sans, 0), "1... e5 2. Nf3 Nc6");
    assert_eq!(pv_line(&sans, 1), "2. e5 Nf3 3. Nc6");
    assert_eq!(pv_line(&Vec::new(), 4), "");
}

#[test]
fn label_names_players_date_and_result() {
    let game = parse(GAME).unwrap().remove(0);
    assert_eq!(label(&game), "Alice vs Bob  2024.01.01  *");
}
