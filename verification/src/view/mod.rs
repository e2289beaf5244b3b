//! Browsing an annotated game.
//!
//! What is drawn is a pure function of the current move, so moving through
//! the game is only a change of index.

pub mod board;
pub mod evalbar;
pub mod keys;
pub mod layout;
pub mod moves;
pub mod picker;
pub mod status;

use vstd::prelude::*;
use crate::chess::{Piece, initial_position, start_position};
use crate::model::{Game, GameView, tag_value};
use crate::text::{decimal, push_decimal};
use keys::{Key, KeyCode};

verus! {

/// What a key press asks of the event loop.
#[derive(Debug, Clone, Copy, PartialEq, Eq, Structural)]
pub enum Action {
    Continue,
    Quit,
}

/// The state of the viewer: the game and the current position, nothing
/// more. Whatever else is shown is computed from these two, so that what is
/// shown cannot drift from where the viewer is.
pub struct Viewer {
    game: Game,
    /// The position shown: 0 is the initial position, `n` the position
    /// after `plies[n - 1]`.
    cursor: usize,
}

/// The heading: players, result, and how far into the game the viewer is.
pub open spec fn title_text(g: GameView, cursor: nat) -> Seq<char> {
    seq![' '] + tag_value(g.tags, seq!['W', 'h', 'i', 't', 'e']) + seq![' ', 'v', 's', ' ']
        + tag_value(g.tags, seq!['B', 'l', 'a', 'c', 'k']) + seq![' ', ' ', '·', ' ', ' ']
        + g.outcome + seq![' ', ' ', '·', ' ', ' '] + decimal(cursor) + seq!['/'] + decimal(
        g.plies.len(),
    ) + seq![' ']
}

/// Where the cursor goes for a key that moves it.
pub open spec fn moved(cursor: nat, len: nat, key: Key) -> nat {
    if key.control {
        cursor
    } else {
        match key.code {
            KeyCode::Right | KeyCode::Char('l') => if cursor + 1 <= len { cursor + 1 } else { len },
            KeyCode::Left | KeyCode::Char('h') => if cursor >= 1 { (cursor - 1) as nat } else { 0 },
            KeyCode::Char('g') => 0,
            KeyCode::Char('G') => len,
            _ => cursor,
        }
    }
}

/// Whether a key ends the viewer: `q`, or Ctrl+C (raw mode turns Ctrl+C
/// into a key press, and without it `q` would be the only way out).
pub open spec fn quits(key: Key) -> bool {
    if key.control {
        key.code == KeyCode::Char('c')
    } else {
        key.code == KeyCode::Char('q')
    }
}

impl Viewer {
    /// The cursor never passes the end of the game.
    #[verifier::type_invariant]
    spec fn wf(&self) -> bool {
        self.cursor <= self.game.plies@.len()
    }

    pub closed spec fn cursor_spec(&self) -> nat {
        self.cursor as nat
    }

    pub closed spec fn game_spec(&self) -> Game {
        self.game
    }

    pub fn new(game: Game) -> (v: Self)
        ensures
            v.cursor_spec() == 0,
            v.game_spec() == game,
    {
        Viewer { game, cursor: 0 }
    }

    /// The game being viewed.
    pub fn game(&self) -> (g: &Game)
        ensures
            *g == self.game_spec(),
    {
        &self.game
    }

    /// The current position's index: 0 for the initial position, `n` after
    /// `plies[n - 1]`.
    pub fn cursor(&self) -> (c: usize)
        ensures
            c == self.cursor_spec(),
            c <= self.game_spec().plies@.len(),
    {
        proof {
            use_type_invariant(self);
        }
        self.cursor
    }

    /// The position shown.
    pub fn position(&self) -> (pos: shakmaty::Chess)
        ensures
            self.cursor_spec() > 0 ==> pos == self.game_spec().plies@[self.cursor_spec() - 1].position,
            self.cursor_spec() == 0 ==> initial_position(pos),
    {
        proof {
            use_type_invariant(self);
        }
        if self.cursor == 0 {
            start_position()
        } else {
            self.game.plies[self.cursor - 1].position.clone()
        }
    }

    /// One ply forward, stopping at the end of the game.
    pub fn next(&mut self)
        ensures
            final(self).cursor_spec() <= final(self).game_spec().plies@.len(),
            final(self).game_spec() == old(self).game_spec(),
            final(self).cursor_spec() == if old(self).cursor_spec() < old(
                self,
            ).game_spec().plies@.len() {
                old(self).cursor_spec() + 1
            } else {
                old(self).cursor_spec()
            },
    {
        proof {
            use_type_invariant(&*self);
        }
        if self.cursor < self.game.plies.len() {
            self.cursor = self.cursor + 1;
        }
    }

    /// One ply back, stopping at the initial position.
    pub fn prev(&mut self)
        ensures
            final(self).cursor_spec() <= final(self).game_spec().plies@.len(),
            final(self).game_spec() == old(self).game_spec(),
            final(self).cursor_spec() == if old(self).cursor_spec() > 0 {
                (old(self).cursor_spec() - 1) as nat
            } else {
                0
            },
    {
        proof {
            use_type_invariant(&*self);
        }
        if self.cursor > 0 {
            self.cursor = self.cursor - 1;
        }
    }

    /// To the initial position.
    pub fn first(&mut self)
        ensures
            final(self).cursor_spec() <= final(self).game_spec().plies@.len(),
            final(self).game_spec() == old(self).game_spec(),
            final(self).cursor_spec() == 0,
    {
        self.cursor = 0;
    }

    /// To the position after the last ply.
    pub fn last(&mut self)
        ensures
            final(self).cursor_spec() <= final(self).game_spec().plies@.len(),
            final(self).game_spec() == old(self).game_spec(),
            final(self).cursor_spec() == old(self).game_spec().plies@.len(),
    {
        self.cursor = self.game.plies.len();
    }

    /// The heading: ` White vs Black  ·  1-0  ·  12/98 `, with `?` for a
    /// missing player.
    pub fn title(&self) -> (t: String)
        ensures
            t@ == title_text(self.game_spec()@, self.cursor_spec()),
    {
        proof {
            reveal_strlit("White");
            reveal_strlit("Black");
            reveal_strlit(" vs ");
            reveal_strlit("  ·  ");
        }
        assert("White"@ =~= seq!['W', 'h', 'i', 't', 'e']);
        assert("Black"@ =~= seq!['B', 'l', 'a', 'c', 'k']);
        assert(" vs "@ =~= seq![' ', 'v', 's', ' ']);
        assert("  ·  "@ =~= seq![' ', ' ', '·', ' ', ' ']);
        let mut t = String::new();
        t.push(' ');
        let white = self.game.tag("White");
        t.append(white.as_str());
        t.append(" vs ");
        let black = self.game.tag("Black");
        t.append(black.as_str());
        t.append("  ·  ");
        t.append(self.game.outcome.as_str());
        t.append("  ·  ");
        push_decimal(&mut t, self.cursor as u64);
        t.push('/');
        push_decimal(&mut t, self.game.plies.len() as u64);
        t.push(' ');
        assert(t@ =~= title_text(self.game_spec()@, self.cursor_spec()));
        t
    }

    /// The squares of the position shown: the initial ones at the start,
    /// else those after the current ply.
    pub closed spec fn shown_squares(&self) -> Seq<Option<Piece>> {
        if self.cursor == 0 {
            board::initial_squares()
        } else {
            board::board_of(self.game.plies@[self.cursor - 1].position)
        }
    }

    /// The board at the current position, as lines of text.
    pub fn board_lines(&self) -> (lines: Vec<String>)
        ensures
            lines@.len() == 9,
            forall|k: int|
                0 <= k < 8 ==> (#[trigger] lines@[k])@ == board::rank_line(
                    self.shown_squares(),
                    (7 - k) as nat,
                ),
            lines@[8]@ == board::files_line(),
            self.cursor_spec() == 0 ==> self.shown_squares() == board::initial_squares(),
            self.cursor_spec() > 0 ==> self.shown_squares() == board::board_of(
                self.game_spec().plies@[self.cursor_spec() - 1].position,
            ),
    {
        let pos = self.position();
        let squares = board::squares_of(&pos);
        proof {
            if self.cursor == 0 {
                assert(squares@ =~= board::initial_squares());
            }
        }
        board::lines(&squares)
    }
}

/// Applies one key press to the viewer.
///
/// Kept apart from reading the keyboard, so that the bindings can be tried
/// without a terminal. Up and down are left free for moving between bad
/// moves.
pub fn apply_key(viewer: &mut Viewer, key: Key) -> (action: Action)
    ensures
        final(viewer).game_spec() == old(viewer).game_spec(),
        action == (if quits(key) { Action::Quit } else { Action::Continue }),
        final(viewer).cursor_spec() == if quits(key) {
            old(viewer).cursor_spec()
        } else {
            moved(old(viewer).cursor_spec(), old(viewer).game_spec().plies@.len(), key)
        },
{
    if key.control {
        return match key.code {
            KeyCode::Char('c') => Action::Quit,
            _ => Action::Continue,
        };
    }
    match key.code {
        KeyCode::Char('q') => return Action::Quit,
        KeyCode::Right | KeyCode::Char('l') => viewer.next(),
        KeyCode::Left | KeyCode::Char('h') => viewer.prev(),
        KeyCode::Char('g') => viewer.first(),
        KeyCode::Char('G') => viewer.last(),
        _ => {},
    }
    Action::Continue
}

/// Whatever path leads to a cursor, the viewer is then in the same state:
/// the last position then back to the start then two steps forward is the
/// same as two steps forward from the start.
pub proof fn law_path_independent(len: nat, c: nat)
    requires
        c <= len,
    ensures
        ({
            let right = Key { code: KeyCode::Right, control: false };
            let first = Key { code: KeyCode::Char('g'), control: false };
            let last = Key { code: KeyCode::Char('G'), control: false };
            moved(moved(moved(moved(c, len, last), len, first), len, right), len, right) == moved(
                moved(0, len, right),
                len,
                right,
            )
        }),
{
}

/// The screen depends on the game and the cursor alone: two viewers of the
/// same game at the same cursor show the same board, however they got
/// there, and every viewer at the start shows the initial position.
pub proof fn law_screen_of_game_and_cursor(a: &Viewer, b: &Viewer)
    requires
        a.game_spec() == b.game_spec(),
        a.cursor_spec() == b.cursor_spec(),
    ensures
        a.shown_squares() == b.shown_squares(),
        a.cursor_spec() == 0 ==> a.shown_squares() == board::initial_squares(),
{
}

/// Moving stops at both ends: back from the initial position stays there,
/// forward from the end stays there.
pub proof fn law_movement_stops_at_ends(len: nat)
    ensures
        moved(0, len, Key { code: KeyCode::Left, control: false }) == 0,
        moved(len, len, Key { code: KeyCode::Right, control: false }) == len,
{
}

} // verus!
