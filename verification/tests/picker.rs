use pgn_nag::view::keys::{Key, KeyCode};
use pgn_nag::view::layout::centered;
use pgn_nag::view::picker::{Picker, PickerAction, list_area, scroll_offset, visible_count};

#[test]
fn keeps_the_selection_visible() {
    for total in [1usize, 5, 50] {
        for visible in [1usize, 3, 10] {
            for cursor in 0..total {
                let offset = scroll_offset(cursor, total, visible);
                assert!(
                    (offset..offset + visible).contains(&cursor),
                    "選択中の行が画面外: total={total} visible={visible} cursor={cursor}"
                );
            }
        }
    }
}

fn key(code: KeyCode) -> Key {
    Key { code, control: false }
}

fn items(n: usize) -> Vec<String> {
    (0..n).map(|i| format!("game {i}")).collect()
}

#[test]
fn moves_between_rows_and_stops_at_the_ends() {
    let mut p = Picker::new(" files ", items(3));
    assert_eq!(p.selected(), 0);
    assert_eq!(p.apply(key(KeyCode::Up)), PickerAction::Continue);
    assert_eq!(p.selected(), 0);
    p.apply(key(KeyCode::Down));
    p.apply(key(KeyCode::Char('j')));
    p.apply(key(KeyCode::Down));
    assert_eq!(p.selected(), 2);
    p.apply(key(KeyCode::Char('k')));
    assert_eq!(p.selected(), 1);
    p.apply(key(KeyCode::Char('G')));
    assert_eq!(p.selected(), 2);
    p.apply(key(KeyCode::Char('g')));
    assert_eq!(p.selected(), 0);
}

#[test]
fn enter_chooses_and_q_cancels() {
    let mut p = Picker::new(" games ", items(4));
    p.apply(key(KeyCode::Down));
    assert_eq!(p.apply(key(KeyCode::Enter)), PickerAction::Choose(1));
    assert_eq!(p.apply(key(KeyCode::Char('q'))), PickerAction::Cancel);
    assert_eq!(p.apply(key(KeyCode::Esc)), PickerAction::Cancel);
    let ctrl = Key { code: KeyCode::Char('c'), control: true };
    assert_eq!(p.apply(ctrl), PickerAction::Cancel);
    let other = Key { code: KeyCode::Down, control: true };
    assert_eq!(p.apply(other), PickerAction::Continue);
    assert_eq!(p.selected(), 1);
    assert_eq!(p.title(), " games ");
}

#[test]
fn empty_list_stays_at_zero() {
    let mut p = Picker::new(" files ", Vec::new());
    p.apply(key(KeyCode::Down));
    p.apply(key(KeyCode::Char('G')));
    assert_eq!(p.selected(), 0);
    assert!(p.visible_rows(5).is_empty());
}

#[test]
fn visible_rows_follow_the_selection() {
    let mut p = Picker::new(" games ", items(10));
    for _ in 0..7 {
        p.apply(key(KeyCode::Down));
    }
    let rows = p.visible_rows(3);
    let texts: Vec<&str> = rows.iter().map(|(t, _)| t.as_str()).collect();
    assert_eq!(texts, ["  game 6", "  game 7", "  game 8"]);
    let marked: Vec<bool> = rows.iter().map(|(_, m)| *m).collect();
    assert_eq!(marked, [false, true, false]);
    assert_eq!(scroll_offset(9, 10, 3), 7);
    assert_eq!(scroll_offset(0, 10, 0), 0);
}

#[test]
fn window_fits_the_screen() {
    assert_eq!(visible_count(3, 20), 3);
    assert_eq!(visible_count(50, 20), 18);
    assert_eq!(visible_count(5, 1), 0);
    assert_eq!(visible_count(0, 10), 0);
}

#[test]
fn selection_is_always_an_entry() {
    let items = vec!["a".to_string(), "b".to_string(), "c".to_string()];
    let mut p = Picker::new(" files ", items);
    for code in [KeyCode::Char('G'), KeyCode::Down, KeyCode::Down, KeyCode::Char('j')] {
        p.apply(Key::plain(code));
        assert!(p.selected() < p.len());
    }
    assert_eq!(p.selected(), 2);
    let rows = p.visible_rows(1);
    assert_eq!(rows.len(), 1);
    assert_eq!(rows[0].0, "  c");
    assert!(rows[0].1);
}

#[test]
fn boxes_stand_in_the_middle() {
    assert_eq!(centered(0, 0, 80, 24, 34, 9), (23, 7, 34, 9));
    assert_eq!(centered(2, 1, 10, 5, 34, 9), (2, 1, 10, 5));
    assert_eq!(centered(0, 0, 7, 6, 4, 3), (1, 1, 4, 3));
    // Three entries on an 80 by 24 screen: 76 wide, 5 high.
    assert_eq!(list_area(0, 0, 80, 24, 3), (2, 9, 76, 5));
    // More entries than fit: the box takes the whole height.
    assert_eq!(list_area(0, 0, 80, 24, 100), (2, 0, 76, 24));
}
