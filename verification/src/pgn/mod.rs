//! Reading and writing annotated PGN.
//!
//! Reading and writing live together, so that the format cannot change on
//! one side only.

pub mod annotation;
pub mod games;
pub mod lex;
pub mod reread;
pub mod roundtrip;
pub mod write;

use vstd::prelude::*;
use crate::chess::{initial_position, play, played, spells_move, san_from_ascii, san_move, san_parse, san_to_move, start_position};
use vstd::utf8::encode_utf8;
use crate::model::{Eval, Game, GameView, Ply, PlyView, games_view};
use crate::text::{chars_of, string_of};
use annotation::{comment_eval, comment_eval_exec, comment_pv, comment_pv_exec};
use games::{RawGame, RawPly, TextGame, TextPly, games_exec, games_of, games_view as text_games_view, plies_view as text_plies_view};
use lex::{lex, lex_exec};
use write::{pgn_text, raw_games, write_text};

verus! {

/// Why a text could not be read.
#[derive(Debug)]
pub enum ParseError {
    /// A move that cannot be played: `ply` counts the plies of its game from
    /// 1, `san` is the move as written.
    IllegalMove { ply: usize, san: String },
    /// An eval annotation that cannot be read, as written.
    BadEvalTag(String),
}

/// The games a text holds, as written.
pub open spec fn read(text: Seq<char>) -> Seq<RawGame> {
    games_of(lex(text))
}

/// The evaluation a ply's comment carries.
pub open spec fn ply_eval(p: RawPly) -> Result<Option<Eval>, Seq<char>> {
    match p.comment {
        None => Ok(None),
        Some(c) => comment_eval(c),
    }
}

/// The principal variation a ply's comment carries.
pub open spec fn ply_pv(p: RawPly) -> Seq<Seq<char>> {
    match p.comment {
        None => seq![],
        Some(c) => comment_pv(c),
    }
}

/// The first unreadable eval annotation among the plies from `k` on.
pub open spec fn first_bad_ply(ps: Seq<RawPly>, k: int) -> Option<Seq<char>>
    decreases ps.len() - k,
{
    if k < 0 || k >= ps.len() {
        None
    } else {
        match ply_eval(ps[k]) {
            Err(t) => Some(t),
            Ok(_) => first_bad_ply(ps, k + 1),
        }
    }
}

/// The first unreadable eval annotation among the games from `k` on.
pub open spec fn first_bad(gs: Seq<RawGame>, k: int) -> Option<Seq<char>>
    decreases gs.len() - k,
{
    if k < 0 || k >= gs.len() {
        None
    } else {
        match first_bad_ply(gs[k].plies, 0) {
            Some(t) => Some(t),
            None => first_bad(gs, k + 1),
        }
    }
}

/// A ply as read: the evaluation and principal variation derived from its
/// comment.
pub open spec fn decorate_ply(p: RawPly) -> PlyView {
    PlyView {
        san: p.san,
        eval: match ply_eval(p) {
            Ok(e) => e,
            Err(_) => None,
        },
        pv: ply_pv(p),
        comment: p.comment,
    }
}

pub open spec fn decorate(g: RawGame) -> GameView {
    GameView {
        tags: g.tags,
        plies: g.plies.map_values(|p: RawPly| decorate_ply(p)),
        outcome: g.outcome,
    }
}

pub open spec fn decorate_all(gs: Seq<RawGame>) -> Seq<GameView> {
    gs.map_values(|g: RawGame| decorate(g))
}

/// The moves of a game as written.
pub open spec fn sans(plies: Seq<RawPly>) -> Seq<Seq<char>> {
    plies.map_values(|p: RawPly| p.san)
}

/// The position after the move written `san` in `pos`: read as SAN, found
/// among the legal moves, played.
pub open spec fn step(pos: shakmaty::Chess, san: Seq<char>) -> Option<shakmaty::Chess> {
    match san_parse(encode_utf8(san)) {
        None => None,
        Some(s) => match san_move(s, pos) {
            None => None,
            Some(m) => played(pos, m),
        },
    }
}

/// Plays the moves of `sans` from the one with index `k` on, from `pos`:
/// the position after each, or the index of the first that cannot be
/// played.
pub open spec fn replay_from(pos: shakmaty::Chess, sans: Seq<Seq<char>>, k: nat) -> Result<
    Seq<shakmaty::Chess>,
    nat,
>
    decreases sans.len() - k,
{
    if k >= sans.len() {
        Ok(seq![])
    } else {
        match step(pos, sans[k as int]) {
            None => Err(k),
            Some(next) => match replay_from(next, sans, k + 1) {
                Ok(rest) => Ok(seq![next] + rest),
                Err(j) => Err(j),
            },
        }
    }
}

/// The positions after each ply of `g`, played from `start`.
pub open spec fn positions(start: shakmaty::Chess, g: RawGame) -> Seq<shakmaty::Chess> {
    match replay_from(start, sans(g.plies), 0) {
        Ok(ps) => ps,
        Err(_) => seq![],
    }
}

/// The first game from the one with index `g` on whose moves cannot all be
/// played from `start`, with the index of the move that fails.
pub open spec fn first_illegal(start: shakmaty::Chess, gs: Seq<RawGame>, g: int) -> Option<
    (int, nat),
>
    decreases gs.len() - g,
{
    if g < 0 || g >= gs.len() {
        None
    } else {
        match replay_from(start, sans(gs[g].plies), 0) {
            Err(k) => Some((g, k)),
            Ok(_) => first_illegal(start, gs, g + 1),
        }
    }
}

/// Each ply of `games` stands at the position that playing its game from
/// `start` reaches.
pub open spec fn placed(start: shakmaty::Chess, gs: Seq<RawGame>, games: Seq<Game>) -> bool {
    forall|g: int, k: int|
        0 <= g < games.len() && 0 <= k < games[g].plies@.len() ==> (
        #[trigger] games[g].plies@[k]).position == positions(start, gs[g])[k]
}

/// What reading `text` from the initial position `start` gives: the first
/// unreadable eval annotation; otherwise the first move that cannot be
/// played; otherwise the games as written, each ply at its position.
pub open spec fn parsed_from(text: Seq<char>, start: shakmaty::Chess, r: Result<Vec<Game>, ParseError>) -> bool {
    match first_bad(read(text), 0) {
        Some(t) => r matches Err(e) && e matches ParseError::BadEvalTag(x) && x@ == t,
        None => match first_illegal(start, read(text), 0) {
            Some((g, k)) => r matches Err(e) && e matches ParseError::IllegalMove { ply, san }
                && ply == k + 1 && san@ == read(text)[g].plies[k as int].san,
            None => r matches Ok(games) && games_view(games@) == decorate_all(read(text))
                && placed(start, read(text), games@) && all_spell(read(text)),
        },
    }
}

/// Every move of `gs` is written with a letter or a `-`, as SAN is.
pub open spec fn all_spell(gs: Seq<RawGame>) -> bool {
    forall|g: int, k: int|
        0 <= g < gs.len() && 0 <= k < gs[g].plies.len() ==> spells_move(
            encode_utf8(#[trigger] gs[g].plies[k].san),
        )
}

/// `out` followed by what `r` holds, or `r`'s failure.
spec fn glue(out: Seq<shakmaty::Chess>, r: Result<Seq<shakmaty::Chess>, nat>) -> Result<
    Seq<shakmaty::Chess>,
    nat,
> {
    match r {
        Ok(rest) => Ok(out + rest),
        Err(j) => Err(j),
    }
}

proof fn lemma_glue(out: Seq<shakmaty::Chess>, next: shakmaty::Chess, r: Result<Seq<shakmaty::Chess>, nat>)
    ensures
        glue(out, glue(seq![next], r)) == glue(out.push(next), r),
{
    match r {
        Ok(rest) => {
            assert(out + (seq![next] + rest) =~= out.push(next) + rest);
        },
        Err(_) => {},
    }
}

/// The evaluation and principal variation of every ply of every game.
type Notes = Vec<Vec<(Option<Eval>, Vec<String>)>>;

pub open spec fn notes_match(gs: Seq<RawGame>, notes: Seq<Seq<(Option<Eval>, Seq<Seq<char>>)>>) -> bool {
    &&& notes.len() == gs.len()
    &&& forall|g: int|
        0 <= g < gs.len() ==> {
            &&& (#[trigger] notes[g]).len() == gs[g].plies.len()
            &&& forall|k: int|
                0 <= k < gs[g].plies.len() ==> (#[trigger] notes[g][k]) == (
                    decorate_ply(gs[g].plies[k]).eval,
                    decorate_ply(gs[g].plies[k]).pv,
                )
        }
}

pub open spec fn notes_view(notes: Seq<Vec<(Option<Eval>, Vec<String>)>>) -> Seq<
    Seq<(Option<Eval>, Seq<Seq<char>>)>,
> {
    notes.map_values(
        |v: Vec<(Option<Eval>, Vec<String>)>|
            v@.map_values(|n: (Option<Eval>, Vec<String>)| (n.0, n.1.deep_view())),
    )
}

/// Derives the evaluation and principal variation of every ply; fails at
/// the first eval annotation that cannot be read.
fn annotate(raws: &Vec<TextGame>) -> (r: Result<Notes, Vec<char>>)
    ensures
        match first_bad(text_games_view(raws@), 0) {
            Some(t) => r matches Err(x) && x@ == t,
            None => r matches Ok(notes) && notes_match(text_games_view(raws@), notes_view(notes@)),
        },
{
    let ghost gs = text_games_view(raws@);
    let mut notes: Notes = Vec::new();
    let mut g: usize = 0;
    while g < raws.len()
        invariant
            g <= raws@.len(),
            gs == text_games_view(raws@),
            first_bad(gs, 0) == first_bad(gs, g as int),
            notes@.len() == g,
            forall|h: int|
                0 <= h < g ==> {
                    &&& (#[trigger] notes_view(notes@)[h]).len() == gs[h].plies.len()
                    &&& forall|k: int|
                        0 <= k < gs[h].plies.len() ==> (#[trigger] notes_view(notes@)[h][k]) == (
                            decorate_ply(gs[h].plies[k]).eval,
                            decorate_ply(gs[h].plies[k]).pv,
                        )
                },
        decreases raws@.len() - g,
    {
        let plies = &raws[g].plies;
        let ghost ps = gs[g as int].plies;
        assert(ps == text_plies_view(plies@));
        let mut row: Vec<(Option<Eval>, Vec<String>)> = Vec::new();
        let mut k: usize = 0;
        while k < plies.len()
            invariant
                k <= plies@.len(),
                g < raws@.len(),
                gs == text_games_view(raws@),
                first_bad(gs, 0) == first_bad(gs, g as int),
                ps == gs[g as int].plies,
                ps == text_plies_view(plies@),
                first_bad_ply(ps, 0) == first_bad_ply(ps, k as int),
                row@.len() == k,
                forall|j: int|
                    0 <= j < k ==> (#[trigger] row@[j]).0 == decorate_ply(ps[j]).eval && row@[j].1.deep_view()
                        == decorate_ply(ps[j]).pv,
            decreases plies@.len() - k,
        {
            assert(ps[k as int] == plies@[k as int]@);
            match &plies[k].comment {
                None => {
                    let empty: Vec<String> = Vec::new();
                    assert(empty.deep_view() =~= seq![]);
                    row.push((None, empty));
                },
                Some(c) => {
                    match comment_eval_exec(c) {
                        Err(t) => {
                            proof {
                                assert(ply_eval(ps[k as int]) == comment_eval(c@));
                                assert(first_bad_ply(ps, k as int) == Some(t@));
                                assert(first_bad(gs, g as int) == first_bad_ply(ps, 0));
                            }
                            return Err(t);
                        },
                        Ok(e) => {
                            let pv = comment_pv_exec(c);
                            row.push((e, pv));
                        },
                    }
                },
            }
            k = k + 1;
        }
        let ghost before = notes_view(notes@);
        notes.push(row);
        proof {
            assert(notes_view(notes@) =~= before.push(
                row@.map_values(|n: (Option<Eval>, Vec<String>)| (n.0, n.1.deep_view())),
            ));
            assert(first_bad(gs, g as int) == first_bad(gs, g + 1));
        }
        g = g + 1;
    }
    Ok(notes)
}

/// The positions after each ply, played from `start`; the index of the
/// first ply that cannot be played otherwise.
fn replay(start: &shakmaty::Chess, plies: &Vec<TextPly>) -> (r: Result<Vec<shakmaty::Chess>, usize>)
    ensures
        match replay_from(*start, sans(text_plies_view(plies@)), 0) {
            Ok(ps) => r matches Ok(v) && v@ == ps,
            Err(k) => r matches Err(j) && j == k,
        },
        r matches Err(j) ==> j < plies@.len(),
        r matches Ok(v) ==> v@.len() == plies@.len(),
        r is Ok ==> forall|j: int|
            0 <= j < plies@.len() ==> spells_move(encode_utf8(#[trigger] plies@[j].san@)),
{
    let ghost ss = sans(text_plies_view(plies@));
    let mut out: Vec<shakmaty::Chess> = Vec::new();
    let mut pos = start.clone();
    let mut k: usize = 0;
    while k < plies.len()
        invariant
            k <= plies@.len(),
            ss == sans(text_plies_view(plies@)),
            replay_from(*start, ss, 0) == glue(out@, replay_from(pos, ss, k as nat)),
            out@.len() == k,
            forall|j: int| 0 <= j < k ==> spells_move(encode_utf8(#[trigger] plies@[j].san@)),
        decreases plies@.len() - k,
    {
        assert(ss[k as int] == plies@[k as int].san@);
        let text = string_of(plies[k].san.as_slice());
        let san = match san_from_ascii(text.as_str().as_bytes()) {
            Some(s) => s,
            None => return Err(k),
        };
        let m = match san_to_move(san, &pos) {
            Some(m) => m,
            None => return Err(k),
        };
        let ghost before = pos;
        pos = match play(pos, m) {
            Some(next) => next,
            None => return Err(k),
        };
        proof {
            lemma_glue(out@, pos, replay_from(pos, ss, (k + 1) as nat));
        }
        out.push(pos.clone());
        k = k + 1;
    }
    assert(out@ + seq![] =~= out@);
    Ok(out)
}

fn clone_strings(v: &Vec<String>) -> (c: Vec<String>)
    ensures
        c.deep_view() == v.deep_view(),
{
    let mut c: Vec<String> = Vec::new();
    let mut i: usize = 0;
    while i < v.len()
        invariant
            i <= v@.len(),
            c.deep_view() =~= v.deep_view().take(i as int),
        decreases v@.len() - i,
    {
        let ghost before = c.deep_view();
        let x = v[i].clone();
        assert(x@ == v.deep_view()[i as int]);
        c.push(x);
        assert(c.deep_view() =~= before.push(x@));
        i = i + 1;
        assert(c.deep_view() =~= v.deep_view().take(i as int));
    }
    assert(v.deep_view().take(i as int) =~= v.deep_view());
    c
}

fn clone_tags(v: &Vec<(Vec<char>, Vec<char>)>) -> (c: Vec<(String, String)>)
    ensures
        c.deep_view() == games::tags_view(v@),
{
    let mut c: Vec<(String, String)> = Vec::new();
    let mut i: usize = 0;
    while i < v.len()
        invariant
            i <= v@.len(),
            c.deep_view() =~= games::tags_view(v@).take(i as int),
        decreases v@.len() - i,
    {
        let ghost before = c.deep_view();
        let pair = (string_of(v[i].0.as_slice()), string_of(v[i].1.as_slice()));
        assert(pair.deep_view() == games::tags_view(v@)[i as int]);
        c.push(pair);
        assert(c.deep_view() =~= before.push(pair.deep_view()));
        i = i + 1;
        assert(c.deep_view() =~= games::tags_view(v@).take(i as int));
    }
    assert(games::tags_view(v@).take(i as int) =~= games::tags_view(v@));
    c
}

/// The games as read, with positions from `shakmaty`; fails at the first
/// move that cannot be played.
fn assemble(start: &shakmaty::Chess, raws: &Vec<TextGame>, notes: &Notes) -> (r: Result<
    Vec<Game>,
    ParseError,
>)
    requires
        notes_match(text_games_view(raws@), notes_view(notes@)),
    ensures
        match first_illegal(*start, text_games_view(raws@), 0) {
            Some((g, k)) => r matches Err(e) && e matches ParseError::IllegalMove { ply, san }
                && ply == k + 1 && san@ == text_games_view(raws@)[g].plies[k as int].san,
            None => r matches Ok(games) && games_view(games@) == decorate_all(
                text_games_view(raws@),
            ) && placed(*start, text_games_view(raws@), games@) && all_spell(
                text_games_view(raws@),
            ),
        },
{
    let ghost gs = text_games_view(raws@);
    let mut out: Vec<Game> = Vec::new();
    let mut g: usize = 0;
    while g < raws.len()
        invariant
            g <= raws@.len(),
            gs == text_games_view(raws@),
            notes_match(gs, notes_view(notes@)),
            games_view(out@) =~= decorate_all(gs).take(g as int),
            first_illegal(*start, gs, 0) == first_illegal(*start, gs, g as int),
            placed(*start, gs, out@),
            forall|i: int, j: int|
                0 <= i < g && 0 <= j < gs[i].plies.len() ==> spells_move(
                    encode_utf8(#[trigger] gs[i].plies[j].san),
                ),
        decreases raws@.len() - g,
    {
        let raw = &raws[g];
        assert(gs[g as int] == raw@);
        let n = raw.plies.len();
        let reached = match replay(start, &raw.plies) {
            Ok(ps) => ps,
            Err(k) => {
                assert(gs[g as int].plies[k as int] == raw.plies@[k as int]@);
                return Err(
                    ParseError::IllegalMove { ply: k + 1, san: string_of(raw.plies[k].san.as_slice()) },
                );
            },
        };
        assert(reached@ == positions(*start, gs[g as int]));
        assert(first_illegal(*start, gs, g as int) == first_illegal(*start, gs, g + 1));
        let ghost nv = notes_view(notes@)[g as int];
        let row = &notes[g];
        assert(nv == row@.map_values(|n: (Option<Eval>, Vec<String>)| (n.0, n.1.deep_view())));
        let mut plies: Vec<Ply> = Vec::new();
        let mut k: usize = 0;
        while k < raw.plies.len()
            invariant
                k <= raw.plies@.len(),
                reached@.len() == raw.plies@.len(),
                g < raws@.len(),
                raw == &raws@[g as int],
                gs == text_games_view(raws@),
                nv == notes_view(notes@)[g as int],
                nv == row@.map_values(|n: (Option<Eval>, Vec<String>)| (n.0, n.1.deep_view())),
                notes_match(gs, notes_view(notes@)),
                crate::model::plies_view(plies@) =~= gs[g as int].plies.map_values(
                    |p: RawPly| decorate_ply(p),
                ).take(k as int),
                plies@.len() == k,
                forall|j: int| 0 <= j < k ==> (#[trigger] plies@[j]).position == reached@[j],
            decreases raw.plies@.len() - k,
        {
            let tp = &raw.plies[k];
            assert(gs[g as int].plies[k as int] == tp@);
            assert(nv[k as int] == (decorate_ply(tp@).eval, decorate_ply(tp@).pv));
            let comment = match &tp.comment {
                None => None,
                Some(c) => Some(string_of(c.as_slice())),
            };
            let ply = Ply {
                san: string_of(tp.san.as_slice()),
                position: reached[k].clone(),
                eval: row[k].0,
                pv: clone_strings(&row[k].1),
                comment,
            };
            assert(ply@ == decorate_ply(tp@));
            let ghost before = crate::model::plies_view(plies@);
            plies.push(ply);
            assert(crate::model::plies_view(plies@) =~= before.push(ply@));
            k = k + 1;
            assert(crate::model::plies_view(plies@) =~= gs[g as int].plies.map_values(
                |p: RawPly| decorate_ply(p),
            ).take(k as int));
        }
        assert(gs[g as int].plies.map_values(|p: RawPly| decorate_ply(p)).take(k as int)
            =~= gs[g as int].plies.map_values(|p: RawPly| decorate_ply(p)));
        let game = Game {
            tags: clone_tags(&raw.tags),
            plies,
            outcome: string_of(raw.outcome.as_slice()),
        };
        assert(game@ == decorate(gs[g as int]));
        let ghost before = games_view(out@);
        let ghost old_out = out@;
        out.push(game);
        assert(games_view(out@) =~= before.push(game@));
        assert forall|i: int, j: int|
            0 <= i < out@.len() && 0 <= j < out@[i].plies@.len() implies (
            #[trigger] out@[i].plies@[j]).position == positions(*start, gs[i])[j] by {
            if i < old_out.len() {
                assert(out@[i] == old_out[i]);
            }
        }
        g = g + 1;
    }
    Ok(out)
}

/// Reads annotated PGN, playing each game from `start`.
///
/// An eval annotation that cannot be read fails the whole text, with the
/// first such annotation; otherwise the first move that `shakmaty` cannot
/// play fails it, with that move and its place in its game. Variations,
/// NAGs and rest-of-line comments are passed over.
pub fn parse_from(pgn: &str, start: &shakmaty::Chess) -> (r: Result<Vec<Game>, ParseError>)
    ensures
        parsed_from(pgn@, *start, r),
{
    let cs = chars_of(pgn);
    let raws = games_exec(lex_exec(&cs));
    match annotate(&raws) {
        Err(t) => Err(ParseError::BadEvalTag(string_of(t.as_slice()))),
        Ok(notes) => assemble(start, &raws, &notes),
    }
}

/// Reads annotated PGN.
///
/// An eval annotation that cannot be read fails the whole text, with the
/// first such annotation; otherwise a move that `shakmaty` cannot play fails
/// it, with that move. Variations, NAGs and rest-of-line comments are passed
/// over.
///
/// The games are played from the initial position of a regular game
/// (`initial_position`).
pub fn parse(pgn: &str) -> (r: Result<Vec<Game>, ParseError>)
    ensures
        exists|start: shakmaty::Chess| initial_position(start) && #[trigger] parsed_from(pgn@, start, r),
{
    let start = start_position();
    let r = parse_from(pgn, &start);
    assert(initial_position(start) && parsed_from(pgn@, start, r));
    r
}

/// Writes games as annotated PGN, in the layout of python-chess.
pub fn write(games: &[Game]) -> (text: String)
    ensures
        text@ == pgn_text(raw_games(games_view(games@))),
{
    write_text(games)
}

} // verus!

