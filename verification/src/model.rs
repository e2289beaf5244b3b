//! What reading an annotated PGN yields: games, their plies and evaluations.

use vstd::prelude::*;
use crate::text::{decimal, digit_char, push_decimal, signed_decimal};
use vstd::string::StringExecFns;

verus! {

/// An evaluation, always from White's point of view.
///
/// Engines report scores from the side to move; they are turned to White's
/// point of view in one place only, so no path can carry the wrong sign.
#[derive(Debug, Clone, Copy, PartialEq, Eq, Structural)]
pub enum Score {
    /// Centipawns.
    Cp(i32),
    /// Moves to mate: positive when White mates, negative when Black does.
    ///
    /// Kept apart from centipawns so that the distance to mate is not lost.
    Mate(i32),
}

/// The evaluation of one position.
#[derive(Debug, Clone, Copy, PartialEq, Eq, Structural)]
pub struct Eval {
    pub score: Score,
    /// The search depth reached; some annotations do not carry one.
    pub depth: Option<u32>,
}

/// One ply and the position after it.
#[derive(Debug, Clone)]
pub struct Ply {
    pub san: String,
    /// The position after this ply.
    pub position: shakmaty::Chess,
    /// Absent for plies without an annotation, which do occur: a game that
    /// ends in checkmate has no evaluation after its last move.
    pub eval: Option<Eval>,
    /// The principal variation, in UCI notation as written.
    pub pv: Vec<String>,
    /// The raw text of the comment, without the braces.
    ///
    /// It is written back as it is. `eval` and `pv` are derived from it, so
    /// whoever changes one must change the others to match, or what is held
    /// and what is written disagree. Kept raw so that annotations this
    /// program does not read, such as `[%clk ...]`, are not lost.
    pub comment: Option<String>,
}

/// One game.
#[derive(Debug, Clone)]
pub struct Game {
    /// The tag pairs in the order they were read; writing them back in that
    /// order is part of reproducing the file.
    pub tags: Vec<(String, String)>,
    pub plies: Vec<Ply>,
    /// The termination marker: `1-0`, `0-1`, `1/2-1/2` or `*`.
    pub outcome: String,
}

/// What a ply holds, apart from the position.
pub struct PlyView {
    pub san: Seq<char>,
    pub eval: Option<Eval>,
    pub pv: Seq<Seq<char>>,
    pub comment: Option<Seq<char>>,
}

/// What a game holds, apart from the positions.
pub struct GameView {
    pub tags: Seq<(Seq<char>, Seq<char>)>,
    pub plies: Seq<PlyView>,
    pub outcome: Seq<char>,
}

impl View for Ply {
    type V = PlyView;

    open spec fn view(&self) -> PlyView {
        PlyView {
            san: self.san@,
            eval: self.eval,
            pv: self.pv.deep_view(),
            comment: self.comment.deep_view(),
        }
    }
}

pub open spec fn plies_view(plies: Seq<Ply>) -> Seq<PlyView> {
    plies.map_values(|p: Ply| p@)
}

impl View for Game {
    type V = GameView;

    open spec fn view(&self) -> GameView {
        GameView {
            tags: self.tags.deep_view(),
            plies: plies_view(self.plies@),
            outcome: self.outcome@,
        }
    }
}

pub open spec fn games_view(games: Seq<Game>) -> Seq<GameView> {
    games.map_values(|g: Game| g@)
}

/// The value of the first tag named `name`, or `?` when there is none.
pub open spec fn tag_value(tags: Seq<(Seq<char>, Seq<char>)>, name: Seq<char>) -> Seq<char>
    decreases tags.len(),
{
    if tags.len() == 0 {
        seq!['?']
    } else if tags[0].0 == name {
        tags[0].1
    } else {
        tag_value(tags.drop_first(), name)
    }
}

impl Game {
    /// The value of the first tag named `name`, or `?` when there is none.
    pub fn tag(&self, name: &str) -> (v: String)
        ensures
            v@ == tag_value(self.tags.deep_view(), name@),
    {
        let key = String::from_str(name);
        let mut i: usize = 0;
        assert(self.tags.deep_view().skip(0) =~= self.tags.deep_view());
        while i < self.tags.len()
            invariant
                i <= self.tags@.len(),
                key@ == name@,
                tag_value(self.tags.deep_view(), name@) == tag_value(
                    self.tags.deep_view().skip(i as int),
                    name@,
                ),
            decreases self.tags@.len() - i,
        {
            let ghost rest = self.tags.deep_view().skip(i as int);
            assert(rest[0] == (self.tags@[i as int].0@, self.tags@[i as int].1@));
            if self.tags[i].0 == key {
                return self.tags[i].1.clone();
            }
            assert(rest.drop_first() =~= self.tags.deep_view().skip(i + 1));
            i = i + 1;
        }
        let mut q = String::new();
        q.push('?');
        assert(q@ =~= seq!['?']);
        q
    }
}

/// The heading of a game in a list of games: `White vs Black  Date  1-0`.
pub open spec fn label_text(g: GameView) -> Seq<char> {
    tag_value(g.tags, seq!['W', 'h', 'i', 't', 'e']) + seq![' ', 'v', 's', ' '] + tag_value(
        g.tags,
        seq!['B', 'l', 'a', 'c', 'k'],
    ) + seq![' ', ' '] + tag_value(g.tags, seq!['D', 'a', 't', 'e']) + seq![' ', ' '] + g.outcome
}

/// The heading of a game in a list of games.
pub fn label(game: &Game) -> (s: String)
    ensures
        s@ == label_text(game@),
{
    proof {
        reveal_strlit("White");
        reveal_strlit("Black");
        reveal_strlit("Date");
        reveal_strlit(" vs ");
        reveal_strlit("  ");
    }
    assert("White"@ =~= seq!['W', 'h', 'i', 't', 'e']);
    assert("Black"@ =~= seq!['B', 'l', 'a', 'c', 'k']);
    assert("Date"@ =~= seq!['D', 'a', 't', 'e']);
    assert(" vs "@ =~= seq![' ', 'v', 's', ' ']);
    assert("  "@ =~= seq![' ', ' ']);
    let mut s = game.tag("White");
    s.append(" vs ");
    let black = game.tag("Black");
    s.append(black.as_str());
    s.append("  ");
    let date = game.tag("Date");
    s.append(date.as_str());
    s.append("  ");
    s.append(game.outcome.as_str());
    assert(s@ =~= label_text(game@));
    s
}

/// `score` as shown to the reader: centipawns as signed pawns with two
/// decimals (`+0.32`, `-1.05`), mates as `#` and the signed distance (`#-3`).
pub open spec fn score_text(score: Score) -> Seq<char> {
    match score {
        Score::Cp(cp) => {
            let m: nat = if cp < 0 { (-cp) as nat } else { cp as nat };
            (if cp < 0 { seq!['-'] } else { seq!['+'] }) + decimal(m / 100) + seq![
                '.',
                digit_char((m % 100) / 10),
                digit_char(m % 10),
            ]
        },
        Score::Mate(n) => seq!['#'] + signed_decimal(n as int),
    }
}

/// The move number that stands before the ply with this index (0 is White's
/// first move): `12.` before White's move, `12...` before Black's.
pub open spec fn marker_text(index: nat) -> Seq<char> {
    decimal(index / 2 + 1) + if index % 2 == 0 {
        seq!['.']
    } else {
        seq!['.', '.', '.']
    }
}

impl Score {
    /// The score as shown to the reader.
    pub fn render(&self) -> (s: String)
        ensures
            s@ == score_text(*self),
    {
        let mut s = String::new();
        match *self {
            Score::Cp(cp) => {
                let wide = cp as i64;
                let m: u64 = if wide < 0 { (-wide) as u64 } else { wide as u64 };
                if cp < 0 {
                    s.push('-');
                } else {
                    s.push('+');
                }
                push_decimal(&mut s, m / 100);
                s.push('.');
                let tens = (m % 100) / 10;
                let ones = m % 10;
                push_decimal(&mut s, tens);
                push_decimal(&mut s, ones);
                assert(s@ =~= score_text(*self));
            },
            Score::Mate(n) => {
                s.push('#');
                crate::text::push_signed_decimal(&mut s, n as i64);
                assert(s@ =~= score_text(*self));
            },
        }
        s
    }
}

/// The move number before the ply with index `index`: `1.` for White's first
/// move, `1...` for Black's reply.
pub fn move_marker(index: usize) -> (s: String)
    ensures
        s@ == marker_text(index as nat),
{
    let mut s = String::new();
    push_decimal(&mut s, (index / 2) as u64 + 1);
    if index % 2 == 0 {
        s.push('.');
    } else {
        s.push('.');
        s.push('.');
        s.push('.');
    }
    assert(s@ =~= marker_text(index as nat));
    s
}

} // verus!
