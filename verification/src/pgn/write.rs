//! Writing games as PGN, in the layout that python-chess exports: tag pairs
//! one per line, a blank line, then the movetext wrapped at 80 columns, and a
//! blank line after each game.

use vstd::prelude::*;
use crate::model::{Game, GameView, Ply, PlyView, games_view, marker_text, move_marker, plies_view};
use crate::text::{chars_of};
use super::games::{RawGame, RawPly};

verus! {

pub open spec fn raw_ply(p: PlyView) -> RawPly {
    RawPly { san: p.san, comment: p.comment }
}

/// What of a game is written: everything but the evaluations and variations
/// derived from the comments.
pub open spec fn raw_game(g: GameView) -> RawGame {
    RawGame { tags: g.tags, plies: g.plies.map_values(|p: PlyView| raw_ply(p)), outcome: g.outcome }
}

pub open spec fn raw_games(gs: Seq<GameView>) -> Seq<RawGame> {
    gs.map_values(|g: GameView| raw_game(g))
}

/// A tag value with `"` and `\` escaped by a backslash.
pub open spec fn escape(v: Seq<char>) -> Seq<char>
    decreases v.len(),
{
    if v.len() == 0 {
        seq![]
    } else {
        (if v[0] == '"' || v[0] == '\\' {
            seq!['\\', v[0]]
        } else {
            seq![v[0]]
        }) + escape(v.drop_first())
    }
}

/// `[Name "Value"]` and a line break.
pub open spec fn tag_line(t: (Seq<char>, Seq<char>)) -> Seq<char> {
    seq!['['] + t.0 + seq![' ', '"'] + escape(t.1) + seq!['"', ']', '\n']
}

pub open spec fn tags_text(tags: Seq<(Seq<char>, Seq<char>)>) -> Seq<char>
    decreases tags.len(),
{
    if tags.len() == 0 {
        seq![]
    } else {
        tag_line(tags[0]) + tags_text(tags.drop_first())
    }
}

/// `{comment}`: the comment as it was read, between braces.
pub open spec fn comment_core(c: Seq<char>) -> Seq<char> {
    seq!['{'] + c + seq!['}']
}

/// The words of the movetext for the plies from index `k` on: the move
/// number before each of White's moves, and before a move of Black's when a
/// comment separates it from White's (`force`); the move; its comment.
pub open spec fn ply_cores(plies: Seq<RawPly>, k: int, force: bool) -> Seq<Seq<char>>
    decreases plies.len() - k,
{
    if k < 0 || k >= plies.len() {
        seq![]
    } else {
        let p = plies[k];
        (if k % 2 == 0 || force {
            seq![marker_text(k as nat)]
        } else {
            seq![]
        }) + seq![p.san] + (match p.comment {
            Some(c) => seq![comment_core(c)],
            None => seq![],
        }) + ply_cores(plies, k + 1, p.comment is Some)
    }
}

/// The words of a game's movetext, ending with its termination marker.
pub open spec fn cores(g: RawGame) -> Seq<Seq<char>> {
    ply_cores(g.plies, 0, true) + seq![g.outcome]
}

/// The width at which movetext is wrapped.
pub open spec fn columns() -> nat {
    80
}

/// The words `cs[k..]` laid out on lines of at most 80 columns, where the
/// current line already holds `line` columns (each word counted with the
/// space after it). A word that does not fit starts a new line; a word
/// longer than a line stands alone on it.
pub open spec fn layout(cs: Seq<Seq<char>>, k: int, line: nat) -> Seq<char>
    decreases cs.len() - k,
{
    if k < 0 || k >= cs.len() {
        seq![]
    } else {
        let c = cs[k];
        let t = c.len() + 1;
        if line == 0 {
            c + layout(cs, k + 1, t)
        } else if line + t > columns() {
            seq!['\n'] + c + layout(cs, k + 1, t)
        } else {
            seq![' '] + c + layout(cs, k + 1, line + t)
        }
    }
}

/// One game: its tag pairs, a blank line, its movetext, a blank line.
pub open spec fn game_text(g: RawGame) -> Seq<char> {
    tags_text(g.tags) + seq!['\n'] + layout(cores(g), 0, 0) + seq!['\n', '\n']
}

/// The games from index `k` on.
pub open spec fn games_text(gs: Seq<RawGame>, k: int) -> Seq<char>
    decreases gs.len() - k,
{
    if k < 0 || k >= gs.len() {
        seq![]
    } else {
        game_text(gs[k]) + games_text(gs, k + 1)
    }
}

/// The PGN text of a sequence of games.
pub open spec fn pgn_text(gs: Seq<RawGame>) -> Seq<char> {
    games_text(gs, 0)
}

// ---------------------------------------------------------------------------

fn push_escaped(out: &mut String, v: &str)
    ensures
        final(out)@ == old(out)@ + escape(v@),
{
    let cs = chars_of(v);
    let mut k: usize = 0;
    assert(cs@.skip(0) =~= cs@);
    while k < cs.len()
        invariant
            k <= cs@.len(),
            cs@ == v@,
            old(out)@ + escape(cs@) == out@ + escape(cs@.skip(k as int)),
        decreases cs@.len() - k,
    {
        let c = cs[k];
        let ghost rest = cs@.skip(k as int);
        assert(rest.drop_first() =~= cs@.skip(k + 1));
        let ghost before = out@;
        if c == '"' || c == '\\' {
            out.push('\\');
            out.push(c);
            assert(before + escape(rest) =~= out@ + escape(cs@.skip(k + 1)));
        } else {
            out.push(c);
            assert(before + escape(rest) =~= out@ + escape(cs@.skip(k + 1)));
        }
        k = k + 1;
    }
    assert(out@ + escape(cs@.skip(k as int)) =~= out@);
}

fn push_tags(out: &mut String, tags: &Vec<(String, String)>)
    ensures
        final(out)@ == old(out)@ + tags_text(tags.deep_view()),
{
    let ghost all = tags.deep_view();
    let mut k: usize = 0;
    assert(all.skip(0) =~= all);
    while k < tags.len()
        invariant
            k <= tags@.len(),
            all == tags.deep_view(),
            old(out)@ + tags_text(all) == out@ + tags_text(all.skip(k as int)),
        decreases tags@.len() - k,
    {
        let ghost rest = all.skip(k as int);
        assert(rest.drop_first() =~= all.skip(k + 1));
        assert(rest[0] == (tags@[k as int].0@, tags@[k as int].1@));
        let ghost before = out@;
        out.push('[');
        out.append(tags[k].0.as_str());
        out.push(' ');
        out.push('"');
        push_escaped(out, tags[k].1.as_str());
        out.push('"');
        out.push(']');
        out.push('\n');
        assert(before + tags_text(rest) =~= out@ + tags_text(all.skip(k + 1)));
        k = k + 1;
    }
    assert(out@ + tags_text(all.skip(k as int)) =~= out@);
}

pub open spec fn raw_plies(plies: Seq<Ply>) -> Seq<RawPly> {
    plies_view(plies).map_values(|p: PlyView| raw_ply(p))
}

/// The words of the movetext of `plies`.
fn ply_cores_exec(plies: &Vec<Ply>) -> (cs: Vec<String>)
    ensures
        cs.deep_view() == ply_cores(raw_plies(plies@), 0, true),
{
    let ghost raws = raw_plies(plies@);
    let mut out: Vec<String> = Vec::new();
    let mut force = true;
    let mut k: usize = 0;
    assert(out.deep_view() =~= seq![]);
    while k < plies.len()
        invariant
            k <= plies@.len(),
            raws == raw_plies(plies@),
            ply_cores(raws, 0, true) == out.deep_view() + ply_cores(raws, k as int, force),
        decreases plies@.len() - k,
    {
        let p = &plies[k];
        assert(raws[k as int] == RawPly { san: p.san@, comment: p.comment.deep_view() });
        let ghost before = out.deep_view();
        let ghost old_force = force;
        let ghost num: Seq<Seq<char>> = if k % 2 == 0 || force {
            seq![marker_text(k as nat)]
        } else {
            seq![]
        };
        if k % 2 == 0 || force {
            out.push(move_marker(k));
        }
        assert(out.deep_view() =~= before + num);
        out.push(p.san.clone());
        let ghost com: Seq<Seq<char>> = match raws[k as int].comment {
            Some(c) => seq![comment_core(c)],
            None => seq![],
        };
        match &p.comment {
            Some(c) => {
                let mut w = String::new();
                w.push('{');
                w.append(c.as_str());
                w.push('}');
                assert(w@ =~= comment_core(c@));
                out.push(w);
                force = true;
            },
            None => {
                force = false;
            },
        }
        assert(out.deep_view() =~= before + num + seq![raws[k as int].san] + com);
        assert(ply_cores(raws, k as int, old_force) == num + seq![raws[k as int].san] + com
            + ply_cores(raws, k + 1, force));
        assert(ply_cores(raws, 0, true) =~= out.deep_view() + ply_cores(raws, k + 1, force));
        k = k + 1;
    }
    assert(out.deep_view() + ply_cores(raws, k as int, force) =~= out.deep_view());
    out
}

/// Appends the words `cs` laid out on lines of at most 80 columns.
fn push_layout(out: &mut String, cs: &Vec<String>)
    ensures
        final(out)@ == old(out)@ + layout(cs.deep_view(), 0, 0),
{
    let ghost all = cs.deep_view();
    let mut k: usize = 0;
    let mut line: usize = 0;
    let ghost mut gl: nat = 0;
    while k < cs.len()
        invariant
            k <= cs@.len(),
            all == cs.deep_view(),
            line == (if gl < 81 { gl } else { 81 }),
            old(out)@ + layout(all, 0, 0) == out@ + layout(all, k as int, gl),
        decreases cs@.len() - k,
    {
        let c = &cs[k];
        assert(all[k as int] == c@);
        let cl = c.as_str().unicode_len();
        let t: usize = if cl >= 80 { 81 } else { cl + 1 };
        let ghost before = out@;
        let ghost old_gl = gl;
        let ghost exact: nat = (cl + 1) as nat;
        if line == 0 {
            out.append(c.as_str());
            proof {
                gl = exact;
            }
            line = t;
            assert(layout(all, k as int, old_gl) == c@ + layout(all, k + 1, gl));
        } else if line + t > 80 {
            out.push('\n');
            out.append(c.as_str());
            proof {
                gl = exact;
            }
            line = t;
            assert(layout(all, k as int, old_gl) == seq!['\n'] + c@ + layout(all, k + 1, gl));
        } else {
            out.push(' ');
            out.append(c.as_str());
            proof {
                gl = old_gl + exact;
            }
            line = line + t;
            assert(layout(all, k as int, old_gl) == seq![' '] + c@ + layout(all, k + 1, gl));
        }
        assert(old(out)@ + layout(all, 0, 0) =~= out@ + layout(all, k + 1, gl));
        k = k + 1;
    }
    assert(out@ + layout(all, k as int, gl) =~= out@);
}

/// The PGN text of `games`.
pub fn write_text(games: &[Game]) -> (text: String)
    ensures
        text@ == pgn_text(raw_games(games_view(games@))),
{
    let ghost raws = raw_games(games_view(games@));
    let mut out = String::new();
    let mut k: usize = 0;
    while k < games.len()
        invariant
            k <= games@.len(),
            raws == raw_games(games_view(games@)),
            pgn_text(raws) == out@ + games_text(raws, k as int),
        decreases games@.len() - k,
    {
        let g = &games[k];
        assert(raws[k as int] == raw_game(g@));
        let ghost before = out@;
        push_tags(&mut out, &g.tags);
        out.push('\n');
        let mut cs = ply_cores_exec(&g.plies);
        let ghost pc = cs.deep_view();
        cs.push(g.outcome.clone());
        assert(cs.deep_view() =~= cores(raws[k as int]));
        push_layout(&mut out, &cs);
        out.push('\n');
        out.push('\n');
        assert(out@ =~= before + game_text(raws[k as int]));
        assert(pgn_text(raws) =~= out@ + games_text(raws, k + 1));
        k = k + 1;
    }
    assert(out@ + games_text(raws, k as int) =~= out@);
    out
}

} // verus!
