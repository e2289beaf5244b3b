//! From tokens to games: tag pairs, the moves of the main line and their
//! comments, and the termination marker. Variations are passed over.

use vstd::prelude::*;
use super::lex::{Tok, Token, toks_view};

verus! {

/// A ply as written: the move and its comment.
pub struct RawPly {
    pub san: Seq<char>,
    pub comment: Option<Seq<char>>,
}

/// A game as written: tag pairs in order, the plies of the main line and the
/// termination marker.
pub struct RawGame {
    pub tags: Seq<(Seq<char>, Seq<char>)>,
    pub plies: Seq<RawPly>,
    pub outcome: Seq<char>,
}

pub open spec fn star() -> Seq<char> {
    seq!['*']
}

pub open spec fn empty_game() -> RawGame {
    RawGame { tags: seq![], plies: seq![], outcome: seq![] }
}

pub open spec fn finish(g: RawGame, outcome: Seq<char>) -> RawGame {
    RawGame { tags: g.tags, plies: g.plies, outcome }
}

/// A comment belongs to the ply before it; a second comment on the same ply
/// is joined to the first with a space. A comment before the first move has
/// no ply to belong to and is dropped.
pub open spec fn attach(plies: Seq<RawPly>, c: Seq<char>) -> Seq<RawPly> {
    if plies.len() == 0 {
        plies
    } else {
        let last = plies.last();
        let merged = match last.comment {
            None => c,
            Some(old) => old + seq![' '] + c,
        };
        plies.update(plies.len() - 1, RawPly { san: last.san, comment: Some(merged) })
    }
}

/// The games that the tokens from `i` on complete, given the game `g` being
/// read, whether anything of it was seen (`started`), whether its moves
/// began (`moving`) and how deep in variations the reader is.
///
/// A game ends at its termination marker; at a tag pair after its moves
/// began, or at the end of the text, it ends unterminated, as `*`.
pub open spec fn games_from(
    ts: Seq<Tok>,
    i: int,
    g: RawGame,
    started: bool,
    moving: bool,
    depth: nat,
) -> Seq<RawGame>
    decreases ts.len() - i,
{
    if i < 0 || i >= ts.len() {
        if started {
            seq![finish(g, star())]
        } else {
            seq![]
        }
    } else if depth > 0 {
        match ts[i] {
            Tok::Open => games_from(ts, i + 1, g, started, moving, depth + 1),
            Tok::Close => games_from(ts, i + 1, g, started, moving, (depth - 1) as nat),
            _ => games_from(ts, i + 1, g, started, moving, depth),
        }
    } else {
        match ts[i] {
            Tok::Tag(n, v) => if moving {
                seq![finish(g, star())] + games_from(
                    ts,
                    i + 1,
                    RawGame { tags: seq![(n, v)], plies: seq![], outcome: seq![] },
                    true,
                    false,
                    0,
                )
            } else {
                games_from(
                    ts,
                    i + 1,
                    RawGame { tags: g.tags.push((n, v)), plies: g.plies, outcome: g.outcome },
                    true,
                    false,
                    0,
                )
            },
            Tok::Number => games_from(ts, i + 1, g, true, true, 0),
            Tok::San(x) => games_from(
                ts,
                i + 1,
                RawGame {
                    tags: g.tags,
                    plies: g.plies.push(RawPly { san: x, comment: None }),
                    outcome: g.outcome,
                },
                true,
                true,
                0,
            ),
            Tok::Comment(c) => games_from(
                ts,
                i + 1,
                RawGame { tags: g.tags, plies: attach(g.plies, c), outcome: g.outcome },
                started,
                moving,
                0,
            ),
            Tok::Open => games_from(ts, i + 1, g, true, true, 1),
            Tok::Close => games_from(ts, i + 1, g, started, moving, 0),
            Tok::Outcome(o) => seq![finish(g, o)] + games_from(
                ts,
                i + 1,
                empty_game(),
                false,
                false,
                0,
            ),
        }
    }
}

/// The games that a sequence of tokens holds.
pub open spec fn games_of(ts: Seq<Tok>) -> Seq<RawGame> {
    games_from(ts, 0, empty_game(), false, false, 0)
}

/// A ply as the executable reader holds it.
pub struct TextPly {
    pub san: Vec<char>,
    pub comment: Option<Vec<char>>,
}

impl View for TextPly {
    type V = RawPly;

    open spec fn view(&self) -> RawPly {
        RawPly {
            san: self.san@,
            comment: match self.comment {
                Some(c) => Some(c@),
                None => None,
            },
        }
    }
}

/// A game as the executable reader holds it.
pub struct TextGame {
    pub tags: Vec<(Vec<char>, Vec<char>)>,
    pub plies: Vec<TextPly>,
    pub outcome: Vec<char>,
}

pub open spec fn tags_view(tags: Seq<(Vec<char>, Vec<char>)>) -> Seq<(Seq<char>, Seq<char>)> {
    tags.map_values(|p: (Vec<char>, Vec<char>)| (p.0@, p.1@))
}

pub open spec fn plies_view(plies: Seq<TextPly>) -> Seq<RawPly> {
    plies.map_values(|p: TextPly| p@)
}

impl View for TextGame {
    type V = RawGame;

    open spec fn view(&self) -> RawGame {
        RawGame { tags: tags_view(self.tags@), plies: plies_view(self.plies@), outcome: self.outcome@ }
    }
}

pub open spec fn games_view(gs: Seq<TextGame>) -> Seq<RawGame> {
    gs.map_values(|g: TextGame| g@)
}

fn attach_exec(plies: &mut Vec<TextPly>, c: Vec<char>)
    ensures
        plies_view(final(plies)@) == attach(plies_view(old(plies)@), c@),
{
    let ghost before = plies_view(plies@);
    match plies.pop() {
        None => {},
        Some(last) => {
            let ghost lv = last@;
            assert(lv == before.last());
            assert(plies_view(plies@) =~= before.drop_last());
            let TextPly { san, comment } = last;
            let merged = match comment {
                None => c,
                Some(old) => {
                    let mut m = old;
                    m.push(' ');
                    let mut rest = c;
                    m.append(&mut rest);
                    m
                },
            };
            assert(merged@ == match lv.comment {
                None => c@,
                Some(o) => o + seq![' '] + c@,
            });
            plies.push(TextPly { san, comment: Some(merged) });
            assert(plies_view(plies@) =~= attach(before, c@));
        },
    }
}

fn star_exec() -> (v: Vec<char>)
    ensures
        v@ == star(),
{
    let mut v = Vec::new();
    v.push('*');
    assert(v@ =~= star());
    v
}

/// The games that the tokens hold.
pub fn games_exec(ts: Vec<Token>) -> (gs: Vec<TextGame>)
    ensures
        games_view(gs@) == games_of(toks_view(ts@)),
{
    let ghost all = toks_view(ts@);
    let mut out: Vec<TextGame> = Vec::new();
    let mut tags: Vec<(Vec<char>, Vec<char>)> = Vec::new();
    let mut plies: Vec<TextPly> = Vec::new();
    let mut started = false;
    let mut moving = false;
    let mut depth: usize = 0;
    let ghost mut i: int = 0;
    let n = ts.len();
    assert(tags_view(tags@) =~= seq![]);
    assert(plies_view(plies@) =~= seq![]);
    for t in it: ts.into_iter()
        invariant
            n == all.len(),
            it.seq() == ts@,
            i == it.index(),
            all == toks_view(ts@),
            0 <= i <= all.len(),
            depth <= i,
            games_of(all) == games_view(out@) + games_from(
                all,
                i,
                RawGame { tags: tags_view(tags@), plies: plies_view(plies@), outcome: seq![] },
                started,
                moving,
                depth as nat,
            ),
    {
        let ghost g = RawGame { tags: tags_view(tags@), plies: plies_view(plies@), outcome: seq![] };
        let ghost before = games_view(out@);
        assert(all[i] == t@);
        if depth > 0 {
            match t {
                Token::Open => {
                    depth = depth + 1;
                },
                Token::Close => {
                    depth = depth - 1;
                },
                _ => {},
            }
        } else {
            match t {
                Token::Tag(n, v) => {
                    if moving {
                        let done = TextGame { tags, plies, outcome: star_exec() };
                        out.push(done);
                        tags = Vec::new();
                        plies = Vec::new();
                        tags.push((n, v));
                        assert(games_view(out@) =~= before + seq![finish(g, star())]);
                        assert(tags_view(tags@) =~= seq![(n@, v@)]);
                        assert(plies_view(plies@) =~= seq![]);
                    } else {
                        tags.push((n, v));
                        assert(tags_view(tags@) =~= g.tags.push((n@, v@)));
                    }
                    started = true;
                    moving = false;
                },
                Token::Number => {
                    started = true;
                    moving = true;
                },
                Token::San(x) => {
                    plies.push(TextPly { san: x, comment: None });
                    assert(plies_view(plies@) =~= g.plies.push(RawPly { san: x@, comment: None }));
                    started = true;
                    moving = true;
                },
                Token::Comment(c) => {
                    attach_exec(&mut plies, c);
                },
                Token::Open => {
                    started = true;
                    moving = true;
                    depth = 1;
                },
                Token::Close => {},
                Token::Outcome(o) => {
                    let done = TextGame { tags, plies, outcome: o };
                    out.push(done);
                    tags = Vec::new();
                    plies = Vec::new();
                    started = false;
                    moving = false;
                    assert(games_view(out@) =~= before + seq![finish(g, o@)]);
                    assert(tags_view(tags@) =~= seq![]);
                    assert(plies_view(plies@) =~= seq![]);
                },
            }
        }
        proof {
            i = i + 1;
        }
        assert(games_of(all) =~= games_view(out@) + games_from(
            all,
            i,
            RawGame { tags: tags_view(tags@), plies: plies_view(plies@), outcome: seq![] },
            started,
            moving,
            depth as nat,
        ));
    }
    if started {
        let ghost g = RawGame { tags: tags_view(tags@), plies: plies_view(plies@), outcome: seq![] };
        let ghost before = games_view(out@);
        out.push(TextGame { tags, plies, outcome: star_exec() });
        assert(games_view(out@) =~= before + seq![finish(g, star())]);
    }
    assert(games_view(out@) =~= games_of(all));
    out
}

} // verus!
