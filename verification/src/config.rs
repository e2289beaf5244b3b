//! The settings the user writes; the program only reads them.

use vstd::prelude::*;

verus! {

/// Thresholds of a bad move, as a loss in centipawns.
///
/// Bad moves are derived when a game is read, never stored, so changing
/// these changes what is shown.
#[derive(Debug, Clone, Copy, PartialEq, Eq, Structural)]
pub struct Thresholds {
    pub inaccuracy: i32,
    pub mistake: i32,
    pub blunder: i32,
}

impl Default for Thresholds {
    fn default() -> (t: Self)
        ensures
            t == (Thresholds { inaccuracy: 50, mistake: 100, blunder: 200 }),
    {
        Thresholds { inaccuracy: 50, mistake: 100, blunder: 200 }
    }
}

/// The content of the settings file.
#[derive(Debug, Clone, PartialEq, Eq)]
pub struct Config {
    /// Where the engine is; when absent it is looked up on `PATH`.
    pub engine: Option<String>,
    /// The directory listed when the program starts without arguments.
    pub games_dir: Option<String>,
    pub thresholds: Thresholds,
}

impl Default for Config {
    fn default() -> (c: Self)
        ensures
            c.engine is None,
            c.games_dir is None,
            c.thresholds == (Thresholds { inaccuracy: 50, mistake: 100, blunder: 200 }),
    {
        Config { engine: None, games_dir: None, thresholds: Thresholds::default() }
    }
}

} // verus!
