//! The screen is a pure function of the current position.

use pgn_nag::view::keys::{Key, KeyCode};
use pgn_nag::view::{Action, apply_key};
use pgn_nag::{Viewer, parse};
use shakmaty::Position;

const GAME: &str = "[White \"Alice\"]\n[Black \"Bob\"]\n[Result \"*\"]\n\n1. d4 { [%eval 0.32,18] } 1... Nf6 2. c4 e6 *\n\n";

fn viewer() -> Viewer {
    let game = parse(GAME).unwrap().remove(0);
    Viewer::new(game)
}

fn draw(viewer: &Viewer) -> String {
    let mut lines = viewer.board_lines();
    lines.insert(0, viewer.title());
    lines.join("\n")
}

#[test]
fn shows_initial_position() {
    let screen = draw(&viewer());
    assert!(screen.contains("r n b q k b n r"), "8 段目に黒の駒が並ぶ");
    assert!(screen.contains("R N B Q K B N R"), "1 段目に白の駒が並ぶ");
    assert!(screen.contains("a b c d e f g h"));
}

#[test]
fn advancing_changes_the_board() {
    let mut v = viewer();
    let before = draw(&v);
    v.next(); // 1. d4
    let after = draw(&v);
    assert_ne!(before, after);
    // d2 のポーンが d4 へ動いた結果、2 段目に空きができる
    assert!(after.contains("P P P . P P P P"));
}

#[test]
fn same_cursor_gives_same_screen() {
    let mut forward = viewer();
    forward.next();
    forward.next();

    let mut roundabout = viewer();
    roundabout.last();
    roundabout.first();
    roundabout.next();
    roundabout.next();

    assert_eq!(draw(&forward), draw(&roundabout));
}

#[test]
fn movement_stops_at_both_ends() {
    let mut v = viewer();
    v.prev();
    assert_eq!(draw(&v), draw(&viewer()), "開始局面より前へは戻らない");

    let mut end = viewer();
    end.last();
    let at_end = draw(&end);
    end.next();
    assert_eq!(draw(&end), at_end, "終局より先へは進まない");
}

#[test]
fn board_lines_are_exact() {
    let v = viewer();
    let lines = v.board_lines();
    assert_eq!(lines.len(), 9);
    assert_eq!(lines[0], "8  r n b q k b n r ");
    assert_eq!(lines[1], "7  p p p p p p p p ");
    assert_eq!(lines[4], "4  . . . . . . . . ");
    assert_eq!(lines[7], "1  R N B Q K B N R ");
    assert_eq!(lines[8], "   a b c d e f g h");
}

#[test]
fn title_shows_players_result_and_progress() {
    let mut v = viewer();
    assert_eq!(v.title(), " Alice vs Bob  ·  *  ·  0/4 ");
    v.last();
    assert_eq!(v.title(), " Alice vs Bob  ·  *  ·  4/4 ");
    let bare = Viewer::new(parse("1. e4 *").unwrap().remove(0));
    assert_eq!(bare.title(), " ? vs ?  ·  *  ·  0/1 ");
}

#[test]
fn keys_move_and_quit() {
    let mut v = viewer();
    let key = |c| Key { code: c, control: false };
    assert_eq!(apply_key(&mut v, key(KeyCode::Right)), Action::Continue);
    assert_eq!(v.cursor(), 1);
    apply_key(&mut v, key(KeyCode::Char('l')));
    assert_eq!(v.cursor(), 2);
    apply_key(&mut v, key(KeyCode::Char('h')));
    apply_key(&mut v, key(KeyCode::Left));
    assert_eq!(v.cursor(), 0);
    apply_key(&mut v, key(KeyCode::Char('G')));
    assert_eq!(v.cursor(), 4);
    apply_key(&mut v, key(KeyCode::Char('g')));
    assert_eq!(v.cursor(), 0);
    apply_key(&mut v, key(KeyCode::Up));
    apply_key(&mut v, key(KeyCode::Down));
    assert_eq!(v.cursor(), 0, "上下は空けてある");
    assert_eq!(apply_key(&mut v, key(KeyCode::Char('q'))), Action::Quit);
    let ctrl = |c| Key { code: c, control: true };
    assert_eq!(apply_key(&mut v, ctrl(KeyCode::Char('c'))), Action::Quit);
    assert_eq!(apply_key(&mut v, ctrl(KeyCode::Char('q'))), Action::Continue);
    assert_eq!(apply_key(&mut v, ctrl(KeyCode::Right)), Action::Continue);
    assert_eq!(v.cursor(), 0);
}

#[test]
fn position_follows_the_cursor() {
    let mut v = viewer();
    v.next();
    let lines = v.board_lines();
    assert_eq!(lines[4], "4  . . . P . . . . ");
    v.next();
    assert_eq!(v.board_lines()[2], "6  . . . . . n . . ");
}

#[test]
fn the_start_is_the_initial_position() {
    let v = viewer();
    let start = v.position();
    assert_eq!(start, shakmaty::Chess::default());
    assert_eq!(start.turn(), shakmaty::Color::White);
    assert_eq!(start.castles().castling_rights().0, 0x8100_0000_0000_0081);
}
