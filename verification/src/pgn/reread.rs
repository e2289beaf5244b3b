//! Whatever `parse` reads, `write` writes so that it reads back the same:
//! the games that any text yields are canonical.

use vstd::prelude::*;
use vstd::utf8::{encode_utf8, is_ascii_chars, is_ascii_chars_encode_utf8};
use crate::chess::spells_move;
use crate::model::{Game, games_view};
use crate::text::{is_digit, is_ws};
use super::games::{RawGame, RawPly, attach, empty_game, finish, games_from, star};
use super::lex::{
    Tok, find_char, is_delim, is_outcome, lex, lex_from, number_end, skip_ws, step, tag_step,
    unescape, word_end, word_toks, lemma_find_char_range,
    lemma_number_end_range, lemma_skip_ws_range, lemma_word_end_range,
};
use super::roundtrip::{canonical, canonical_game, canonical_ply, canonical_san, canonical_tag, law_read_after_write, lemma_raw_decorate};
use super::write::{pgn_text, raw_games};
use super::{all_spell, decorate_all, parsed_from, read};

verus! {

/// A move as the lexer reads it: a word that does not start with a digit,
/// and a termination marker only as `*` (after a move number, as in `1.*`).
pub open spec fn lexed_san(x: Seq<char>) -> bool {
    &&& x.len() > 0
    &&& !is_digit(x[0])
    &&& (is_outcome(x) ==> x == seq!['*'])
    &&& forall|k: int| 0 <= k < x.len() ==> !is_delim(#[trigger] x[k])
}

/// No `}` in `c`.
pub open spec fn no_brace(c: Seq<char>) -> bool {
    forall|k: int| 0 <= k < c.len() ==> #[trigger] c[k] != '}'
}

/// What every token of any text satisfies.
pub open spec fn good_tok(t: Tok) -> bool {
    match t {
        Tok::Tag(n, v) => canonical_tag((n, v)),
        Tok::San(x) => lexed_san(x),
        Tok::Comment(c) => no_brace(c),
        Tok::Outcome(o) => is_outcome(o),
        _ => true,
    }
}

pub open spec fn good_toks(ts: Seq<Tok>) -> bool {
    forall|k: int| 0 <= k < ts.len() ==> good_tok(#[trigger] ts[k])
}

pub open spec fn good_ply(p: RawPly) -> bool {
    &&& lexed_san(p.san)
    &&& p.comment matches Some(c) ==> no_brace(c)
}

/// A game being read: its tags and plies as any text gives them.
pub open spec fn good_partial(g: RawGame) -> bool {
    &&& forall|k: int| 0 <= k < g.tags.len() ==> canonical_tag(#[trigger] g.tags[k])
    &&& forall|k: int| 0 <= k < g.plies.len() ==> good_ply(#[trigger] g.plies[k])
}

/// A game as any text gives it.
pub open spec fn good_game(g: RawGame) -> bool {
    &&& good_partial(g)
    &&& is_outcome(g.outcome)
}

proof fn lemma_find_char_skips(s: Seq<char>, i: int, c: char)
    requires
        0 <= i,
    ensures
        forall|j: int| i <= j < find_char(s, i, c) ==> s[j] != c,
    decreases s.len() - i,
{
    if 0 <= i < s.len() && s[i] != c {
        lemma_find_char_skips(s, i + 1, c);
    }
}

proof fn lemma_word_end_chars(s: Seq<char>, i: int)
    requires
        0 <= i,
    ensures
        forall|j: int| i <= j < word_end(s, i) ==> !is_delim(s[j]),
    decreases s.len() - i,
{
    if 0 <= i < s.len() && !is_delim(s[i]) {
        lemma_word_end_chars(s, i + 1);
    }
}

proof fn lemma_number_end_stops(s: Seq<char>, i: int)
    requires
        0 <= i <= s.len(),
    ensures
        number_end(s, i) < s.len() ==> !is_digit(s[number_end(s, i)]) && s[number_end(s, i)]
            != '.',
    decreases s.len() - i,
{
    if i < s.len() && (is_digit(s[i]) || s[i] == '.') {
        lemma_number_end_stops(s, i + 1);
    }
}

/// The tokens of a word are good.
proof fn lemma_word_toks_good(w: Seq<char>)
    requires
        w.len() > 0,
        forall|k: int| 0 <= k < w.len() ==> !is_delim(#[trigger] w[k]),
    ensures
        good_toks(word_toks(w)),
{
    if is_outcome(w) {
    } else if w.len() > 0 && is_digit(w[0]) {
        let d = number_end(w, 0);
        lemma_number_end_range(w, 0);
        lemma_number_end_stops(w, 0);
        if d < w.len() {
            let x = w.skip(d);
            assert(x[0] == w[d]);
            assert forall|k: int| 0 <= k < x.len() implies !is_delim(#[trigger] x[k]) by {
                assert(x[k] == w[d + k]);
            }
            if is_outcome(x) {
                assert(x[0] != '1' && x[0] != '0');
                if x != seq!['*'] {
                    assert(x[0] == '1' || x[0] == '0');
                }
            }
            assert(lexed_san(x));
            assert(good_tok(Tok::San(x)));
            let ts = word_toks(w);
            assert(ts == seq![Tok::Number, Tok::San(x)]);
            assert forall|k: int| 0 <= k < ts.len() implies good_tok(#[trigger] ts[k]) by {
                if k == 1 {
                    assert(ts[1] == Tok::San(x));
                }
            }
        }
    } else {
        assert(lexed_san(w));
    }
}

/// One step of the lexer yields good tokens.
proof fn lemma_step_good(s: Seq<char>, i: int)
    requires
        0 <= i < s.len(),
    ensures
        good_toks(step(s, i).0),
{
    let c = s[i];
    if is_ws(c) {
    } else if c == '{' {
        let k = find_char(s, i + 1, '}');
        lemma_find_char_range(s, i + 1, '}');
        lemma_find_char_skips(s, i + 1, '}');
        let body = s.subrange(i + 1, k);
        assert(no_brace(body)) by {
            assert forall|j: int| 0 <= j < body.len() implies #[trigger] body[j] != '}' by {
                assert(body[j] == s[i + 1 + j]);
            }
        }
        let ts = step(s, i).0;
        assert(ts == seq![Tok::Comment(body)]);
        assert(good_tok(ts[0]));
    } else if c == ';' || c == '(' || c == ')' || c == '$' {
    } else if c == '[' {
        let a = skip_ws(s, i + 1);
        lemma_skip_ws_range(s, i + 1);
        let b = word_end(s, a);
        lemma_word_end_range(s, a);
        lemma_word_end_chars(s, a);
        let q = skip_ws(s, b);
        if q < s.len() && s[q] == '"' && b > a {
            let (v, e) = unescape(s, q + 1);
            let n = s.subrange(a, b);
            assert forall|k: int| 0 <= k < n.len() implies !is_delim(#[trigger] n[k]) by {
                assert(n[k] == s[a + k]);
            }
            assert(canonical_tag((n, v)));
            let ts = tag_step(s, i).0;
            assert(ts == seq![Tok::Tag(n, v)]);
            assert(good_tok(ts[0]));
        }
    } else if is_delim(c) {
    } else {
        let e = word_end(s, i);
        lemma_word_end_range(s, i);
        lemma_word_end_chars(s, i);
        assert(word_end(s, i) == word_end(s, i + 1));
        lemma_word_end_range(s, i + 1);
        assert(e > i);
        let w = s.subrange(i, e);
        assert forall|k: int| 0 <= k < w.len() implies !is_delim(#[trigger] w[k]) by {
            assert(w[k] == s[i + k]);
        }
        lemma_word_toks_good(w);
    }
}

/// Every token of any text is good.
pub proof fn lemma_lex_good(s: Seq<char>, i: int)
    ensures
        good_toks(lex_from(s, i)),
    decreases s.len() - i,
{
    if i < 0 || i >= s.len() {
    } else {
        let (t, n) = step(s, i);
        lemma_step_good(s, i);
        if i < n <= s.len() {
            lemma_lex_good(s, n);
            let all = t + lex_from(s, n);
            assert forall|k: int| 0 <= k < all.len() implies good_tok(#[trigger] all[k]) by {
                if k < t.len() {
                    assert(all[k] == t[k]);
                } else {
                    assert(all[k] == lex_from(s, n)[k - t.len()]);
                }
            }
        }
    }
}

proof fn lemma_attach_good(plies: Seq<RawPly>, c: Seq<char>)
    requires
        forall|k: int| 0 <= k < plies.len() ==> good_ply(#[trigger] plies[k]),
        no_brace(c),
    ensures
        forall|k: int| 0 <= k < attach(plies, c).len() ==> good_ply(#[trigger] attach(plies, c)[k]),
{
    if plies.len() > 0 {
        let last = plies.last();
        assert(good_ply(plies[plies.len() - 1]));
        match last.comment {
            None => {},
            Some(old) => {
                let m = old + seq![' '] + c;
                assert forall|j: int| 0 <= j < m.len() implies #[trigger] m[j] != '}' by {
                    if j < old.len() {
                        assert(m[j] == old[j]);
                    } else if j > old.len() {
                        assert(m[j] == c[j - old.len() - 1]);
                    }
                }
            },
        }
    }
}

/// The games that good tokens complete are good.
proof fn lemma_games_good(
    ts: Seq<Tok>,
    i: int,
    g: RawGame,
    started: bool,
    moving: bool,
    depth: nat,
)
    requires
        good_toks(ts),
        good_partial(g),
    ensures
        forall|k: int|
            0 <= k < games_from(ts, i, g, started, moving, depth).len() ==> good_game(
                #[trigger] games_from(ts, i, g, started, moving, depth)[k],
            ),
    decreases ts.len() - i,
{
    let out = games_from(ts, i, g, started, moving, depth);
    if i < 0 || i >= ts.len() {
        if started {
            assert(out == seq![finish(g, star())]);
            assert(star() == seq!['*']);
            assert(good_game(out[0]));
        }
    } else if depth > 0 {
        match ts[i] {
            Tok::Open => {
                lemma_games_good(ts, i + 1, g, started, moving, depth + 1);
                assert(out == games_from(ts, i + 1, g, started, moving, depth + 1));
            },
            Tok::Close => {
                lemma_games_good(ts, i + 1, g, started, moving, (depth - 1) as nat);
                assert(out == games_from(ts, i + 1, g, started, moving, (depth - 1) as nat));
            },
            _ => {
                lemma_games_good(ts, i + 1, g, started, moving, depth);
                assert(out == games_from(ts, i + 1, g, started, moving, depth));
            },
        }
    } else {
        assert(good_tok(ts[i]));
        match ts[i] {
            Tok::Tag(n, v) => {
                if moving {
                    let ng = RawGame { tags: seq![(n, v)], plies: seq![], outcome: seq![] };
                    lemma_games_good(ts, i + 1, ng, true, false, 0);
                    let rest = games_from(ts, i + 1, ng, true, false, 0);
                    assert(is_outcome(star()));
                    assert(out == seq![finish(g, star())] + rest);
                    assert forall|k: int| 0 <= k < out.len() implies good_game(#[trigger] out[k]) by {
                        if k > 0 {
                            assert(out[k] == rest[k - 1]);
                        }
                    }
                } else {
                    let ng = RawGame { tags: g.tags.push((n, v)), plies: g.plies, outcome: g.outcome };
                    assert forall|k: int| 0 <= k < ng.tags.len() implies canonical_tag(
                        #[trigger] ng.tags[k],
                    ) by {
                        if k < g.tags.len() {
                            assert(ng.tags[k] == g.tags[k]);
                        }
                    }
                    lemma_games_good(ts, i + 1, ng, true, false, 0);
                    assert(out == games_from(ts, i + 1, ng, true, false, 0));
                }
            },
            Tok::Number => {
                lemma_games_good(ts, i + 1, g, true, true, 0);
                assert(out == games_from(ts, i + 1, g, true, true, 0));
            },
            Tok::San(x) => {
                let ng = RawGame {
                    tags: g.tags,
                    plies: g.plies.push(RawPly { san: x, comment: None }),
                    outcome: g.outcome,
                };
                assert forall|k: int| 0 <= k < ng.plies.len() implies good_ply(
                    #[trigger] ng.plies[k],
                ) by {
                    if k < g.plies.len() {
                        assert(ng.plies[k] == g.plies[k]);
                    }
                }
                lemma_games_good(ts, i + 1, ng, true, true, 0);
                assert(out == games_from(ts, i + 1, ng, true, true, 0));
            },
            Tok::Comment(c) => {
                lemma_attach_good(g.plies, c);
                let ng = RawGame { tags: g.tags, plies: attach(g.plies, c), outcome: g.outcome };
                lemma_games_good(ts, i + 1, ng, started, moving, 0);
                assert(out == games_from(ts, i + 1, ng, started, moving, 0));
            },
            Tok::Open => {
                lemma_games_good(ts, i + 1, g, true, true, 1);
                assert(out == games_from(ts, i + 1, g, true, true, 1));
            },
            Tok::Close => {
                lemma_games_good(ts, i + 1, g, started, moving, 0);
                assert(out == games_from(ts, i + 1, g, started, moving, 0));
            },
            Tok::Outcome(o) => {
                let e = empty_game();
                lemma_games_good(ts, i + 1, e, false, false, 0);
                let rest = games_from(ts, i + 1, e, false, false, 0);
                assert(out == seq![finish(g, o)] + rest);
                assert forall|k: int| 0 <= k < out.len() implies good_game(#[trigger] out[k]) by {
                    if k > 0 {
                        assert(out[k] == rest[k - 1]);
                    }
                }
            },
        }
    }
}

/// The games of any text: tag names and moves as words, comments without
/// `}`, termination markers as PGN writes them.
pub proof fn lemma_read_good(text: Seq<char>)
    ensures
        forall|k: int| 0 <= k < read(text).len() ==> good_game(#[trigger] read(text)[k]),
{
    lemma_lex_good(text, 0);
    let e = empty_game();
    assert(good_partial(e));
    lemma_games_good(lex(text), 0, e, false, false, 0);
}

/// `*` is not written with a letter or a `-`.
proof fn lemma_star_spells_nothing()
    ensures
        !spells_move(encode_utf8(seq!['*'])),
{
    let x = seq!['*'];
    assert(is_ascii_chars(x));
    is_ascii_chars_encode_utf8(x);
    let b = encode_utf8(x);
    assert(b.len() == 1 && b[0] == 42u8);
    if spells_move(b) {
        let k = choose|k: int|
            0 <= k < b.len() && ((65 <= #[trigger] b[k] <= 90) || (97 <= b[k] <= 122) || b[k]
                == 45);
        assert(k == 0);
    }
}

/// Writing games that `parse` read, then reading and writing again, gives
/// the same text: `write(parse(write(games)))` is `write(games)`. The games
/// of the second reading are those of the first, so they are played and
/// annotated alike.
pub proof fn law_write_is_stable(text: Seq<char>, start: shakmaty::Chess, games: Vec<Game>)
    requires
        parsed_from(text, start, Ok(games)),
    ensures
        read(pgn_text(raw_games(games_view(games@)))) == read(text),
        pgn_text(raw_games(decorate_all(read(pgn_text(raw_games(games_view(games@))))))) == pgn_text(
            raw_games(games_view(games@)),
        ),
        forall|r: Result<Vec<Game>, super::ParseError>|
            #[trigger] parsed_from(pgn_text(raw_games(games_view(games@))), start, r)
                <==> parsed_from(text, start, r),
{
    let gs = read(text);
    lemma_raw_decorate(gs);
    assert(raw_games(games_view(games@)) == gs);
    lemma_read_good(text);
    assert(all_spell(gs));
    lemma_star_spells_nothing();
    assert forall|g: int| 0 <= g < gs.len() implies canonical_game(#[trigger] gs[g]) by {
        assert(good_game(gs[g]));
        assert forall|k: int| 0 <= k < gs[g].plies.len() implies canonical_ply(
            #[trigger] gs[g].plies[k],
        ) by {
            let p = gs[g].plies[k];
            assert(good_ply(p));
            assert(spells_move(encode_utf8(gs[g].plies[k].san)));
            assert(p.san != seq!['*']);
            assert(canonical_san(p.san));
        }
    }
    assert(canonical(gs));
    law_read_after_write(gs);
    lemma_raw_decorate(gs);
}

} // verus!
