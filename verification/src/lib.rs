//! Annotated PGN games: reading and writing them, and browsing them move by
//! move.
//!
//! Analysis and viewing are separate steps joined by an annotated PGN file:
//! the viewer never runs an engine, it reads what the analysis wrote.

pub mod chess;
pub mod cli;
pub mod config;
pub mod library;
pub mod model;
pub mod pgn;
pub mod text;
pub mod view;

pub use model::{Eval, Game, Ply, Score, label};
pub use pgn::{ParseError, parse};
pub use view::Viewer;
