//! The key bindings and the help made from them.

use pgn_nag::view::keys::{Command, Key, KeyCode, bindings, command_for};

fn plain(code: KeyCode) -> Key {
    Key { code, control: false }
}

#[test]
fn every_listed_key_runs_its_command() {
    for b in bindings() {
        for &code in &b.codes {
            assert_eq!(command_for(plain(code)), Some(b.command), "{}", b.label);
        }
    }
}

#[test]
fn help_lists_seven_bindings_in_order() {
    let labels: Vec<&str> = bindings().iter().map(|b| b.label).collect();
    assert_eq!(labels, ["→ / l", "← / h", "g", "G", "?", "Esc", "q"]);
    assert_eq!(bindings()[4].description, "ヘルプの開閉");
}

#[test]
fn control_only_knows_ctrl_c() {
    let ctrl = |code| Key { code, control: true };
    assert_eq!(command_for(ctrl(KeyCode::Char('c'))), Some(Command::Quit));
    assert_eq!(command_for(ctrl(KeyCode::Char('q'))), None);
    assert_eq!(command_for(ctrl(KeyCode::Right)), None);
}

#[test]
fn up_and_down_are_free() {
    assert_eq!(command_for(plain(KeyCode::Up)), None);
    assert_eq!(command_for(plain(KeyCode::Down)), None);
    assert_eq!(command_for(plain(KeyCode::Char('c'))), None);
    assert_eq!(command_for(plain(KeyCode::Enter)), None);
    assert_eq!(command_for(plain(KeyCode::Esc)), Some(Command::CloseHelp));
}

#[test]
fn help_lists_labels_and_descriptions() {
    let bs = pgn_nag::view::keys::bindings();
    assert_eq!(bs.len(), 7);
    assert_eq!((bs[0].label, bs[0].description), ("→ / l", "次の手"));
    assert_eq!((bs[6].label, bs[6].description), ("q", "終了"));
}
