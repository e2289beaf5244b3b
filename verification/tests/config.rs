//! The settings and their defaults.

use pgn_nag::config::{Config, Thresholds};

#[test]
fn default_thresholds_match_the_documented_values() {
    let t = Config::default().thresholds;
    assert_eq!((t.inaccuracy, t.mistake, t.blunder), (50, 100, 200));
}

#[test]
fn default_config_names_no_paths() {
    let c = Config::default();
    assert!(c.engine.is_none());
    assert!(c.games_dir.is_none());
    assert_eq!(c.thresholds, Thresholds::default());
}
