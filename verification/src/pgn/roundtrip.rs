//! What `write` writes, `parse` reads back: the proof that reading the text
//! of canonical games gives those games again.

use vstd::prelude::*;
use crate::model::marker_text;
use crate::text::{decimal, digit_char, is_digit, is_ws};
use super::games::{RawGame, RawPly, attach, empty_game, finish, games_from, games_of};
use super::lex::{
    Tok, find_char, is_delim, is_outcome, lex, lex_from, number_end, skip_ws, step, tag_step,
    trim, trim_end, trim_start, unescape, word_end, word_toks,
};
use crate::model::{Game, games_view};
use super::{decorate, decorate_all, decorate_ply, read};
use super::write::{raw_game, raw_games, raw_ply,
    comment_core, cores, escape, game_text, games_text, layout, pgn_text, ply_cores, tag_line,
    tags_text,
};

verus! {

// ---------------------------------------------------------------------------
// Canonical games.

/// A move as `write` can write it so that it reads back: not empty, not
/// starting with a digit (it would read as a move number), not a
/// termination marker, and without whitespace or PGN punctuation.
pub open spec fn canonical_san(x: Seq<char>) -> bool {
    &&& x.len() > 0
    &&& !is_digit(x[0])
    &&& !is_outcome(x)
    &&& forall|k: int| 0 <= k < x.len() ==> !is_delim(#[trigger] x[k])
}

/// A comment that reads back: no `}` in it.
pub open spec fn canonical_comment(c: Seq<char>) -> bool {
    forall|k: int| 0 <= k < c.len() ==> #[trigger] c[k] != '}'
}

/// A tag name that reads back: not empty, no whitespace or punctuation.
pub open spec fn canonical_tag(t: (Seq<char>, Seq<char>)) -> bool {
    &&& t.0.len() > 0
    &&& forall|k: int| 0 <= k < t.0.len() ==> !is_delim(#[trigger] t.0[k])
}

pub open spec fn canonical_ply(p: RawPly) -> bool {
    &&& canonical_san(p.san)
    &&& p.comment matches Some(c) ==> canonical_comment(c)
}

/// A game that `write` writes so that `parse` reads it back.
pub open spec fn canonical_game(g: RawGame) -> bool {
    &&& forall|k: int| 0 <= k < g.tags.len() ==> canonical_tag(#[trigger] g.tags[k])
    &&& forall|k: int| 0 <= k < g.plies.len() ==> canonical_ply(#[trigger] g.plies[k])
    &&& is_outcome(g.outcome)
}

pub open spec fn canonical(gs: Seq<RawGame>) -> bool {
    forall|k: int| 0 <= k < gs.len() ==> canonical_game(#[trigger] gs[k])
}

// ---------------------------------------------------------------------------
// Tokens of canonical games.

pub open spec fn tag_toks(tags: Seq<(Seq<char>, Seq<char>)>) -> Seq<Tok> {
    tags.map_values(|t: (Seq<char>, Seq<char>)| Tok::Tag(t.0, t.1))
}

pub open spec fn ply_toks(plies: Seq<RawPly>, k: int, force: bool) -> Seq<Tok>
    decreases plies.len() - k,
{
    if k < 0 || k >= plies.len() {
        seq![]
    } else {
        let p = plies[k];
        (if k % 2 == 0 || force {
            seq![Tok::Number]
        } else {
            seq![]
        }) + seq![Tok::San(p.san)] + (match p.comment {
            Some(c) => seq![Tok::Comment(c)],
            None => seq![],
        }) + ply_toks(plies, k + 1, p.comment is Some)
    }
}

pub open spec fn game_toks(g: RawGame) -> Seq<Tok> {
    tag_toks(g.tags) + ply_toks(g.plies, 0, true) + seq![Tok::Outcome(g.outcome)]
}

pub open spec fn all_toks(gs: Seq<RawGame>, k: int) -> Seq<Tok>
    decreases gs.len() - k,
{
    if k < 0 || k >= gs.len() {
        seq![]
    } else {
        game_toks(gs[k]) + all_toks(gs, k + 1)
    }
}

// ---------------------------------------------------------------------------
// The lexer on pieces of text.

proof fn lemma_lex_ws(s: Seq<char>, i: int)
    requires
        0 <= i < s.len(),
        is_ws(s[i]),
    ensures
        lex_from(s, i) == lex_from(s, i + 1),
{
    assert(step(s, i) == (Seq::<Tok>::empty(), i + 1));
    assert(lex_from(s, i) =~= lex_from(s, i + 1));
}

proof fn lemma_word_end_at(s: Seq<char>, i: int, j: int)
    requires
        0 <= i <= j <= s.len(),
        forall|k: int| i <= k < j ==> !is_delim(#[trigger] s[k]),
        j == s.len() || is_delim(s[j]),
    ensures
        word_end(s, i) == j,
    decreases j - i,
{
    if i < j {
        lemma_word_end_at(s, i + 1, j);
    }
}

proof fn lemma_find_char_at(s: Seq<char>, i: int, j: int, c: char)
    requires
        0 <= i <= j < s.len(),
        forall|k: int| i <= k < j ==> #[trigger] s[k] != c,
        s[j] == c,
    ensures
        find_char(s, i, c) == j,
    decreases j - i,
{
    if i < j {
        lemma_find_char_at(s, i + 1, j, c);
    }
}

/// A word of movetext.
pub open spec fn is_word(x: Seq<char>) -> bool {
    &&& x.len() > 0
    &&& forall|k: int| 0 <= k < x.len() ==> !is_delim(#[trigger] x[k])
}

/// A comment as written: `{`, text without `}`, `}`.
pub open spec fn is_braced(x: Seq<char>) -> bool {
    &&& x.len() >= 2
    &&& x[0] == '{'
    &&& x.last() == '}'
    &&& forall|k: int| 1 <= k < x.len() - 1 ==> #[trigger] x[k] != '}'
}

/// The tokens of one word or comment of movetext.
pub open spec fn lexed(x: Seq<char>) -> Seq<Tok> {
    if x.len() > 0 && x[0] == '{' {
        seq![Tok::Comment(x.subrange(1, x.len() - 1))]
    } else {
        word_toks(x)
    }
}

/// The tokens of a sequence of words and comments.
pub open spec fn flat(cs: Seq<Seq<char>>) -> Seq<Tok>
    decreases cs.len(),
{
    if cs.len() == 0 {
        seq![]
    } else {
        lexed(cs[0]) + flat(cs.drop_first())
    }
}

proof fn lemma_lex_piece(s: Seq<char>, i: int, x: Seq<char>)
    requires
        is_word(x) || is_braced(x),
        0 <= i,
        i + x.len() < s.len(),
        s.subrange(i, i + x.len()) == x,
        is_delim(s[i + x.len()]),
    ensures
        lex_from(s, i) == lexed(x) + lex_from(s, i + x.len()),
{
    let n = i + x.len();
    assert(s[i] == x[0]);
    if is_word(x) {
        assert forall|k: int| i <= k < n implies !is_delim(#[trigger] s[k]) by {
            assert(s[k] == x[k - i]);
        }
        lemma_word_end_at(s, i, n);
        assert(s.subrange(i, word_end(s, i)) == x);
        assert(step(s, i) == (word_toks(x), n));
    } else {
        assert forall|k: int| i + 1 <= k < n - 1 implies #[trigger] s[k] != '}' by {
            assert(s[k] == x[k - i]);
        }
        assert(s[n - 1] == x.last());
        lemma_find_char_at(s, i + 1, n - 1, '}');
        assert(s.subrange(i + 1, n - 1) =~= x.subrange(1, x.len() - 1));
        assert(step(s, i) == (lexed(x), n));
    }
    assert(lex_from(s, i) =~= lexed(x) + lex_from(s, n));
}

proof fn lemma_layout_starts(cs: Seq<Seq<char>>, k: int, line: nat)
    requires
        0 <= k < cs.len(),
        line > 0,
    ensures
        layout(cs, k, line).len() > 0,
        is_ws(layout(cs, k, line)[0]),
{
}

/// Reading the laid-out words gives the tokens of the words, one after the
/// other; the line breaks and spaces between them are only whitespace.
proof fn lemma_lex_layout(s: Seq<char>, i: int, cs: Seq<Seq<char>>, k: int, line: nat)
    requires
        0 <= k <= cs.len(),
        forall|j: int| 0 <= j < cs.len() ==> is_word(#[trigger] cs[j]) || is_braced(cs[j]),
        k > 0 ==> line > 0,
        0 <= i,
        i + layout(cs, k, line).len() < s.len(),
        s.subrange(i, i + layout(cs, k, line).len()) == layout(cs, k, line),
        is_ws(s[i + layout(cs, k, line).len()]),
    ensures
        lex_from(s, i) == flat(cs.skip(k)) + lex_from(s, i + layout(cs, k, line).len()),
    decreases cs.len() - k,
{
    let l = layout(cs, k, line);
    if k >= cs.len() {
        assert(cs.skip(k) =~= Seq::<Seq<char>>::empty());
        assert(l =~= Seq::<char>::empty());
        assert(lex_from(s, i) =~= flat(cs.skip(k)) + lex_from(s, i));
    } else {
        let c = cs[k];
        let t: nat = c.len() + 1;
        let rest_line: nat = if line == 0 || line + t > 80 { t } else { line + t };
        let r = layout(cs, k + 1, rest_line);
        let start: int = if line == 0 { i } else { i + 1 };
        if line == 0 {
            assert(l == c + r);
        } else if line + t > 80 {
            assert(l == seq!['\n'] + c + r);
        } else {
            assert(l == seq![' '] + c + r);
        }
        assert(l.len() == (start - i) + c.len() + r.len());
        if line > 0 {
            assert(s[i] == l[0]);
            lemma_lex_ws(s, i);
        }
        assert(s.subrange(start, start + c.len()) =~= c) by {
            assert forall|m: int| 0 <= m < c.len() implies s.subrange(start, start + c.len())[m]
                == c[m] by {
                assert(s[start + m] == l[(start - i) + m]);
            }
        }
        let after = start + c.len();
        if k + 1 < cs.len() {
            lemma_layout_starts(cs, k + 1, rest_line);
            assert(s[after] == l[after - i]);
            assert(l[after - i] == r[0]);
        } else {
            assert(r.len() == 0);
        }
        lemma_lex_piece(s, start, c);
        assert(s.subrange(after, after + r.len()) =~= r) by {
            assert forall|m: int| 0 <= m < r.len() implies s.subrange(after, after + r.len())[m]
                == r[m] by {
                assert(s[after + m] == l[(after - i) + m]);
            }
        }
        lemma_lex_layout(s, after, cs, k + 1, rest_line);
        assert(cs.skip(k).drop_first() =~= cs.skip(k + 1));
        assert(flat(cs.skip(k)) == lexed(c) + flat(cs.skip(k + 1)));
        assert(lex_from(s, i) =~= flat(cs.skip(k)) + lex_from(s, i + l.len()));
    }
}

proof fn lemma_unescape_escape(s: Seq<char>, j: int, v: Seq<char>)
    requires
        0 <= j,
        j + escape(v).len() < s.len(),
        s.subrange(j, j + escape(v).len()) == escape(v),
        s[j + escape(v).len()] == '"',
    ensures
        unescape(s, j) == (v, j + escape(v).len()),
    decreases v.len(),
{
    let e = escape(v);
    if v.len() == 0 {
        assert(e.len() == 0);
    } else {
        let head: Seq<char> = if v[0] == '"' || v[0] == '\\' {
            seq!['\\', v[0]]
        } else {
            seq![v[0]]
        };
        let tail = escape(v.drop_first());
        assert(e == head + tail);
        let m = j + head.len();
        assert(s[j] == e[0]);
        assert(s.subrange(m, m + tail.len()) =~= tail) by {
            assert forall|x: int| 0 <= x < tail.len() implies s.subrange(m, m + tail.len())[x]
                == tail[x] by {
                assert(s[m + x] == e[head.len() + x]);
            }
        }
        assert(s[m + tail.len()] == '"');
        lemma_unescape_escape(s, m, v.drop_first());
        if v[0] == '"' || v[0] == '\\' {
            assert(s[j + 1] == e[1]);
        }
        assert(unescape(s, j).0 =~= seq![v[0]] + v.drop_first());
        assert(seq![v[0]] + v.drop_first() =~= v);
    }
}

proof fn lemma_lex_tag(s: Seq<char>, i: int, t: (Seq<char>, Seq<char>))
    requires
        canonical_tag(t),
        0 <= i,
        i + tag_line(t).len() <= s.len(),
        s.subrange(i, i + tag_line(t).len()) == tag_line(t),
    ensures
        lex_from(s, i) == seq![Tok::Tag(t.0, t.1)] + lex_from(s, i + tag_line(t).len()),
{
    let tl = tag_line(t);
    let n = t.0;
    let e = escape(t.1);
    assert(tl == seq!['['] + n + seq![' ', '"'] + e + seq!['"', ']', '\n']);
    assert forall|x: int| 0 <= x < tl.len() implies s[i + x] == #[trigger] tl[x] by {
        assert(s.subrange(i, i + tl.len())[x] == tl[x]);
    }
    let b = i + 1 + n.len();
    let q = b + 1;
    let v0 = q + 1;
    let end = v0 + e.len();
    assert(s[i] == '[') by {
        assert(tl[0] == '[');
    }
    assert(s[i + 1] == n[0]) by {
        assert(tl[1] == n[0]);
    }
    assert(!is_ws(s[i + 1]));
    assert(skip_ws(s, i + 1) == i + 1);
    assert forall|k: int| i + 1 <= k < b implies !is_delim(#[trigger] s[k]) by {
        assert(s[k] == tl[k - i]);
        assert(tl[k - i] == n[k - i - 1]);
    }
    assert(s[b] == ' ') by {
        assert(tl[b - i] == ' ');
    }
    lemma_word_end_at(s, i + 1, b);
    assert(s[q] == '"') by {
        assert(tl[q - i] == '"');
    }
    assert(skip_ws(s, q) == q);
    assert(skip_ws(s, b) == q);
    assert(s.subrange(v0, end) =~= e) by {
        assert forall|x: int| 0 <= x < e.len() implies s.subrange(v0, end)[x] == e[x] by {
            assert(s[v0 + x] == tl[v0 + x - i]);
        }
    }
    assert(s[end] == '"') by {
        assert(tl[end - i] == '"');
    }
    assert(s[end + 1] == ']') by {
        assert(tl[end + 1 - i] == ']');
    }
    assert(s[end + 2] == '\n') by {
        assert(tl[end + 2 - i] == '\n');
    }
    lemma_unescape_escape(s, v0, t.1);
    lemma_find_char_at(s, end, end + 1, ']');
    assert(s.subrange(i + 1, b) =~= n) by {
        assert forall|x: int| 0 <= x < n.len() implies s.subrange(i + 1, b)[x] == n[x] by {
            assert(s[i + 1 + x] == tl[1 + x]);
        }
    }
    assert(tag_step(s, i) == (seq![Tok::Tag(n, t.1)], end + 2));
    assert(step(s, i) == tag_step(s, i));
    assert(lex_from(s, i) == seq![Tok::Tag(n, t.1)] + lex_from(s, end + 2));
    lemma_lex_ws(s, end + 2);
    assert(end + 3 == i + tl.len());
}

proof fn lemma_lex_tags(s: Seq<char>, i: int, tags: Seq<(Seq<char>, Seq<char>)>)
    requires
        forall|k: int| 0 <= k < tags.len() ==> canonical_tag(#[trigger] tags[k]),
        0 <= i,
        i + tags_text(tags).len() <= s.len(),
        s.subrange(i, i + tags_text(tags).len()) == tags_text(tags),
    ensures
        lex_from(s, i) == tag_toks(tags) + lex_from(s, i + tags_text(tags).len()),
    decreases tags.len(),
{
    if tags.len() == 0 {
        assert(tag_toks(tags) =~= Seq::<Tok>::empty());
        assert(lex_from(s, i) =~= tag_toks(tags) + lex_from(s, i));
    } else {
        let tl = tag_line(tags[0]);
        let rest = tags_text(tags.drop_first());
        let all = tags_text(tags);
        assert(all == tl + rest);
        assert(s.subrange(i, i + tl.len()) =~= tl) by {
            assert forall|x: int| 0 <= x < tl.len() implies s.subrange(i, i + tl.len())[x]
                == tl[x] by {
                assert(s[i + x] == all[x]);
            }
        }
        lemma_lex_tag(s, i, tags[0]);
        let m = i + tl.len();
        assert(s.subrange(m, m + rest.len()) =~= rest) by {
            assert forall|x: int| 0 <= x < rest.len() implies s.subrange(m, m + rest.len())[x]
                == rest[x] by {
                assert(s[m + x] == all[tl.len() + x]);
            }
        }
        assert forall|k: int| 0 <= k < tags.drop_first().len() implies canonical_tag(
            #[trigger] tags.drop_first()[k],
        ) by {
            assert(tags.drop_first()[k] == tags[k + 1]);
        }
        lemma_lex_tags(s, m, tags.drop_first());
        assert(tag_toks(tags) =~= seq![Tok::Tag(tags[0].0, tags[0].1)] + tag_toks(
            tags.drop_first(),
        ));
        assert(lex_from(s, i) =~= tag_toks(tags) + lex_from(s, i + all.len()));
    }
}

proof fn lemma_decimal_digits(n: nat)
    ensures
        decimal(n).len() > 0,
        forall|k: int| 0 <= k < decimal(n).len() ==> is_digit(#[trigger] decimal(n)[k]),
    decreases n,
{
    if n >= 10 {
        lemma_decimal_digits(n / 10);
        let d = decimal(n);
        assert forall|k: int| 0 <= k < d.len() implies is_digit(#[trigger] d[k]) by {
            if k < d.len() - 1 {
                assert(d[k] == decimal(n / 10)[k]);
            } else {
                assert(d[k] == digit_char(n % 10));
            }
        }
    }
}

proof fn lemma_number_end_all(x: Seq<char>, k: int)
    requires
        0 <= k <= x.len(),
        forall|m: int| 0 <= m < x.len() ==> is_digit(#[trigger] x[m]) || x[m] == '.',
    ensures
        number_end(x, k) == x.len(),
    decreases x.len() - k,
{
    if k < x.len() {
        lemma_number_end_all(x, k + 1);
    }
}

proof fn lemma_marker(n: nat)
    ensures
        is_word(marker_text(n)),
        lexed(marker_text(n)) == seq![Tok::Number],
{
    let d = decimal(n / 2 + 1);
    lemma_decimal_digits(n / 2 + 1);
    let x = marker_text(n);
    let dots: Seq<char> = if n % 2 == 0 { seq!['.'] } else { seq!['.', '.', '.'] };
    assert(x == d + dots);
    assert forall|m: int| 0 <= m < x.len() implies is_digit(#[trigger] x[m]) || x[m] == '.' by {
        if m < d.len() {
            assert(x[m] == d[m]);
        } else {
            assert(x[m] == dots[m - d.len()]);
        }
    }
    assert(x.last() == '.');
    assert(x[0] == d[0]);
    assert(!is_outcome(x)) by {
        if x == seq!['1', '-', '0'] {
            assert(x.last() == '0');
        }
        if x == seq!['0', '-', '1'] {
            assert(x.last() == '1');
        }
        if x == seq!['1', '/', '2', '-', '1', '/', '2'] {
            assert(x.last() == '2');
        }
        if x == seq!['*'] {
            assert(x.last() == '*');
        }
    }
    lemma_number_end_all(x, 0);
}

proof fn lemma_san_core(x: Seq<char>)
    requires
        canonical_san(x),
    ensures
        is_word(x),
        lexed(x) == seq![Tok::San(x)],
{
}

proof fn lemma_outcome_core(x: Seq<char>)
    requires
        is_outcome(x),
    ensures
        is_word(x),
        lexed(x) == seq![Tok::Outcome(x)],
{
}

proof fn lemma_comment_core(c: Seq<char>)
    requires
        canonical_comment(c),
    ensures
        is_braced(comment_core(c)),
        lexed(comment_core(c)) == seq![Tok::Comment(c)],
{
    let x = comment_core(c);
    assert(x == seq!['{'] + c + seq!['}']);
    assert forall|k: int| 1 <= k < x.len() - 1 implies #[trigger] x[k] != '}' by {
        assert(x[k] == c[k - 1]);
    }
    assert(x.subrange(1, x.len() - 1) =~= c);
}

proof fn lemma_flat_append(a: Seq<Seq<char>>, b: Seq<Seq<char>>)
    ensures
        flat(a + b) == flat(a) + flat(b),
    decreases a.len(),
{
    if a.len() == 0 {
        assert(a + b =~= b);
        assert(flat(a) + flat(b) =~= flat(b));
    } else {
        assert((a + b).drop_first() =~= a.drop_first() + b);
        lemma_flat_append(a.drop_first(), b);
        assert((a + b)[0] == a[0]);
        assert(flat(a + b) =~= flat(a) + flat(b));
    }
}

proof fn lemma_flat_one(x: Seq<char>)
    ensures
        flat(seq![x]) == lexed(x),
{
    assert(seq![x].drop_first() =~= Seq::<Seq<char>>::empty());
    assert(seq![x][0] == x);
    assert(flat(Seq::<Seq<char>>::empty()) =~= Seq::<Tok>::empty());
    assert(flat(seq![x]) == lexed(x) + flat(Seq::<Seq<char>>::empty()));
    assert(flat(seq![x]) =~= lexed(x));
}

/// The words of canonical plies are words or comments, and read back as the
/// plies' tokens.
proof fn lemma_ply_cores(plies: Seq<RawPly>, k: int, force: bool)
    requires
        0 <= k,
        forall|j: int| 0 <= j < plies.len() ==> canonical_ply(#[trigger] plies[j]),
    ensures
        flat(ply_cores(plies, k, force)) == ply_toks(plies, k, force),
        forall|j: int|
            0 <= j < ply_cores(plies, k, force).len() ==> is_word(
                #[trigger] ply_cores(plies, k, force)[j],
            ) || is_braced(ply_cores(plies, k, force)[j]),
    decreases plies.len() - k,
{
    if k < plies.len() {
        let p = plies[k];
        assert(canonical_ply(p));
        let num: Seq<Seq<char>> = if k % 2 == 0 || force {
            seq![marker_text(k as nat)]
        } else {
            seq![]
        };
        let com: Seq<Seq<char>> = match p.comment {
            Some(c) => seq![comment_core(c)],
            None => seq![],
        };
        let rest = ply_cores(plies, k + 1, p.comment is Some);
        lemma_ply_cores(plies, k + 1, p.comment is Some);
        lemma_marker(k as nat);
        lemma_san_core(p.san);
        let numt: Seq<Tok> = if k % 2 == 0 || force { seq![Tok::Number] } else { seq![] };
        let comt: Seq<Tok> = match p.comment {
            Some(c) => seq![Tok::Comment(c)],
            None => seq![],
        };
        assert(flat(num) == numt) by {
            if k % 2 == 0 || force {
                lemma_flat_one(marker_text(k as nat));
            } else {
                assert(flat(num) =~= Seq::<Tok>::empty());
            }
        }
        assert(flat(com) == comt) by {
            match p.comment {
                Some(c) => {
                    lemma_comment_core(c);
                    lemma_flat_one(comment_core(c));
                },
                None => {
                    assert(flat(com) =~= Seq::<Tok>::empty());
                },
            }
        }
        lemma_flat_one(p.san);
        let all = ply_cores(plies, k, force);
        assert(all == num + seq![p.san] + com + rest);
        lemma_flat_append(num, seq![p.san]);
        lemma_flat_append(num + seq![p.san], com);
        lemma_flat_append(num + seq![p.san] + com, rest);
        assert(flat(all) =~= ply_toks(plies, k, force));
        assert forall|j: int| 0 <= j < all.len() implies is_word(#[trigger] all[j]) || is_braced(
            all[j],
        ) by {
            let a = num.len();
            if j < a {
                assert(all[j] == marker_text(k as nat));
            } else if j == a {
                assert(all[j] == p.san);
            } else if j < a + 1 + com.len() {
                assert(all[j] == com[j - a - 1]);
                match p.comment {
                    Some(c) => {
                        lemma_comment_core(c);
                    },
                    None => {},
                }
            } else {
                assert(all[j] == rest[j - a - 1 - com.len()]);
            }
        }
    } else {
        assert(ply_cores(plies, k, force) =~= Seq::<Seq<char>>::empty());
        assert(flat(ply_cores(plies, k, force)) =~= ply_toks(plies, k, force));
    }
}

proof fn lemma_cores(g: RawGame)
    requires
        canonical_game(g),
    ensures
        flat(cores(g)) == ply_toks(g.plies, 0, true) + seq![Tok::Outcome(g.outcome)],
        forall|j: int| 0 <= j < cores(g).len() ==> is_word(#[trigger] cores(g)[j]) || is_braced(
            cores(g)[j],
        ),
{
    lemma_ply_cores(g.plies, 0, true);
    lemma_outcome_core(g.outcome);
    lemma_flat_append(ply_cores(g.plies, 0, true), seq![g.outcome]);
    lemma_flat_one(g.outcome);
    let cs = cores(g);
    let pc = ply_cores(g.plies, 0, true);
    assert forall|j: int| 0 <= j < cs.len() implies is_word(#[trigger] cs[j]) || is_braced(
        cs[j],
    ) by {
        if j < pc.len() {
            assert(cs[j] == pc[j]);
        } else {
            assert(cs[j] == g.outcome);
        }
    }
}

/// Reading one game's text gives its tokens.
proof fn lemma_lex_game(s: Seq<char>, i: int, g: RawGame)
    requires
        canonical_game(g),
        0 <= i,
        i + game_text(g).len() <= s.len(),
        s.subrange(i, i + game_text(g).len()) == game_text(g),
    ensures
        lex_from(s, i) == game_toks(g) + lex_from(s, i + game_text(g).len()),
{
    let tt = tags_text(g.tags);
    let cs = cores(g);
    let l = layout(cs, 0, 0);
    let gt = game_text(g);
    assert(gt == tt + seq!['\n'] + l + seq!['\n', '\n']);
    assert forall|x: int| 0 <= x < gt.len() implies s[i + x] == #[trigger] gt[x] by {
        assert(s.subrange(i, i + gt.len())[x] == gt[x]);
    }
    assert(s.subrange(i, i + tt.len()) =~= tt) by {
        assert forall|x: int| 0 <= x < tt.len() implies s.subrange(i, i + tt.len())[x] == tt[x] by {
            assert(s[i + x] == gt[x]);
        }
    }
    lemma_lex_tags(s, i, g.tags);
    let a = i + tt.len();
    assert(s[a] == '\n') by {
        assert(gt[tt.len() as int] == '\n');
    }
    lemma_lex_ws(s, a);
    let m = a + 1;
    assert(s.subrange(m, m + l.len()) =~= l) by {
        assert forall|x: int| 0 <= x < l.len() implies s.subrange(m, m + l.len())[x] == l[x] by {
            assert(s[m + x] == gt[tt.len() + 1 + x]);
        }
    }
    let e = m + l.len();
    assert(s[e] == '\n') by {
        assert(gt[(tt.len() + 1 + l.len()) as int] == '\n');
    }
    assert(s[e + 1] == '\n') by {
        assert(gt[(tt.len() + 2 + l.len()) as int] == '\n');
    }
    lemma_cores(g);
    lemma_lex_layout(s, m, cs, 0, 0);
    assert(cs.skip(0) =~= cs);
    lemma_lex_ws(s, e);
    lemma_lex_ws(s, e + 1);
    assert(e + 2 == i + gt.len());
    assert(lex_from(s, i) =~= game_toks(g) + lex_from(s, i + gt.len()));
}

proof fn lemma_lex_games(s: Seq<char>, i: int, gs: Seq<RawGame>, k: int)
    requires
        canonical(gs),
        0 <= k <= gs.len(),
        0 <= i <= s.len(),
        s.subrange(i, s.len() as int) == games_text(gs, k),
    ensures
        lex_from(s, i) == all_toks(gs, k),
    decreases gs.len() - k,
{
    if k >= gs.len() {
        assert(games_text(gs, k).len() == 0);
        assert(i == s.len());
    } else {
        let gt = game_text(gs[k]);
        let rest = games_text(gs, k + 1);
        let all = games_text(gs, k);
        assert(all == gt + rest);
        assert(s.subrange(i, i + gt.len()) =~= gt) by {
            assert forall|x: int| 0 <= x < gt.len() implies s.subrange(i, i + gt.len())[x]
                == gt[x] by {
                assert(s[i + x] == s.subrange(i, s.len() as int)[x]);
            }
        }
        assert(canonical_game(gs[k]));
        lemma_lex_game(s, i, gs[k]);
        let m = i + gt.len();
        assert(s.subrange(m, s.len() as int) =~= rest) by {
            assert forall|x: int| 0 <= x < rest.len() implies s.subrange(m, s.len() as int)[x]
                == rest[x] by {
                assert(s[m + x] == s.subrange(i, s.len() as int)[gt.len() + x]);
            }
        }
        lemma_lex_games(s, m, gs, k + 1);
    }
}

/// The tokens of the text of canonical games are the games' tokens.
proof fn lemma_lex_text(gs: Seq<RawGame>)
    requires
        canonical(gs),
    ensures
        lex(pgn_text(gs)) == all_toks(gs, 0),
{
    let s = pgn_text(gs);
    assert(s.subrange(0, s.len() as int) =~= games_text(gs, 0));
    lemma_lex_games(s, 0, gs, 0);
}

proof fn lemma_read_tags(
    ts: Seq<Tok>,
    i: int,
    tags: Seq<(Seq<char>, Seq<char>)>,
    k: int,
    st: bool,
)
    requires
        0 <= k <= tags.len(),
        0 <= i,
        i + (tags.len() - k) <= ts.len(),
        forall|j: int|
            0 <= j < tags.len() - k ==> ts[i + j] == Tok::Tag(
                (#[trigger] tags[k + j]).0,
                tags[k + j].1,
            ),
    ensures
        games_from(ts, i, RawGame { tags: tags.take(k), plies: seq![], outcome: seq![] }, st, false, 0)
            == games_from(
            ts,
            i + tags.len() - k,
            RawGame { tags, plies: seq![], outcome: seq![] },
            st || k < tags.len(),
            false,
            0,
        ),
    decreases tags.len() - k,
{
    if k < tags.len() {
        assert(ts[i + 0] == Tok::Tag(tags[k + 0].0, tags[k + 0].1));
        assert(tags.take(k).push((tags[k].0, tags[k].1)) =~= tags.take(k + 1));
        assert forall|j: int| 0 <= j < tags.len() - (k + 1) implies ts[(i + 1) + j] == Tok::Tag(
            (#[trigger] tags[(k + 1) + j]).0,
            tags[(k + 1) + j].1,
        ) by {
            assert(ts[i + (j + 1)] == Tok::Tag(tags[k + (j + 1)].0, tags[k + (j + 1)].1));
        }
        lemma_read_tags(ts, i + 1, tags, k + 1, true);
    } else {
        assert(tags.take(k) =~= tags);
    }
}

proof fn lemma_read_plies(ts: Seq<Tok>, i: int, g: RawGame, k: int, force: bool, st: bool, mv: bool)
    requires
        0 <= k <= g.plies.len(),
        0 <= i,
        i + ply_toks(g.plies, k, force).len() < ts.len(),
        ts.subrange(i, i + ply_toks(g.plies, k, force).len()) == ply_toks(g.plies, k, force),
        ts[i + ply_toks(g.plies, k, force).len()] == Tok::Outcome(g.outcome),
    ensures
        games_from(
            ts,
            i,
            RawGame { tags: g.tags, plies: g.plies.take(k), outcome: seq![] },
            st,
            mv,
            0,
        ) == seq![g] + games_from(
            ts,
            i + ply_toks(g.plies, k, force).len() + 1,
            empty_game(),
            false,
            false,
            0,
        ),
    decreases g.plies.len() - k,
{
    let pt = ply_toks(g.plies, k, force);
    let state = RawGame { tags: g.tags, plies: g.plies.take(k), outcome: seq![] };
    assert forall|x: int| 0 <= x < pt.len() implies ts[i + x] == #[trigger] pt[x] by {
        assert(ts.subrange(i, i + pt.len())[x] == pt[x]);
    }
    if k >= g.plies.len() {
        assert(pt.len() == 0);
        assert(ts[i] == Tok::Outcome(g.outcome));
        assert(g.plies.take(k) =~= g.plies);
        assert(finish(state, g.outcome) == g);
    } else {
        let p = g.plies[k];
        let numt: Seq<Tok> = if k % 2 == 0 || force { seq![Tok::Number] } else { seq![] };
        let comt: Seq<Tok> = match p.comment {
            Some(c) => seq![Tok::Comment(c)],
            None => seq![],
        };
        let rest = ply_toks(g.plies, k + 1, p.comment is Some);
        assert(pt == numt + seq![Tok::San(p.san)] + comt + rest);
        let j = i + numt.len();
        let (st1, mv1) = if numt.len() > 0 { (true, true) } else { (st, mv) };
        if numt.len() > 0 {
            assert(ts[i] == Tok::Number) by {
                assert(pt[0] == Tok::Number);
            }
            assert(games_from(ts, i, state, st, mv, 0) == games_from(ts, j, state, true, true, 0));
        }
        assert(games_from(ts, i, state, st, mv, 0) == games_from(ts, j, state, st1, mv1, 0));
        assert(ts[j] == Tok::San(p.san)) by {
            assert(pt[numt.len() as int] == Tok::San(p.san));
        }
        let pushed = g.plies.take(k).push(RawPly { san: p.san, comment: None });
        let state2 = RawGame { tags: g.tags, plies: pushed, outcome: seq![] };
        assert(games_from(ts, j, state, st1, mv1, 0) == games_from(ts, j + 1, state2, true, true, 0));
        let next = RawGame { tags: g.tags, plies: g.plies.take(k + 1), outcome: seq![] };
        let m = j + 1 + comt.len();
        match p.comment {
            Some(c) => {
                assert(ts[j + 1] == Tok::Comment(c)) by {
                    assert(pt[(numt.len() + 1) as int] == Tok::Comment(c));
                }
                assert(attach(pushed, c) =~= g.plies.take(k + 1));
                assert(games_from(ts, j + 1, state2, true, true, 0) == games_from(
                    ts,
                    m,
                    next,
                    true,
                    true,
                    0,
                ));
            },
            None => {
                assert(pushed =~= g.plies.take(k + 1));
                assert(state2 == next);
            },
        }
        assert(games_from(ts, i, state, st, mv, 0) == games_from(ts, m, next, true, true, 0));
        assert(m + rest.len() == i + pt.len());
        assert(ts.subrange(m, m + rest.len()) =~= rest) by {
            assert forall|x: int| 0 <= x < rest.len() implies ts.subrange(m, m + rest.len())[x]
                == rest[x] by {
                assert(ts[m + x] == pt[(m - i) + x]);
            }
        }
        lemma_read_plies(ts, m, g, k + 1, p.comment is Some, true, true);
    }
}

proof fn lemma_read_game(ts: Seq<Tok>, i: int, g: RawGame)
    requires
        0 <= i,
        i + game_toks(g).len() <= ts.len(),
        ts.subrange(i, i + game_toks(g).len()) == game_toks(g),
    ensures
        games_from(ts, i, empty_game(), false, false, 0) == seq![g] + games_from(
            ts,
            i + game_toks(g).len(),
            empty_game(),
            false,
            false,
            0,
        ),
{
    let gt = game_toks(g);
    let tt = tag_toks(g.tags);
    let pt = ply_toks(g.plies, 0, true);
    assert(gt == tt + pt + seq![Tok::Outcome(g.outcome)]);
    assert forall|x: int| 0 <= x < gt.len() implies ts[i + x] == #[trigger] gt[x] by {
        assert(ts.subrange(i, i + gt.len())[x] == gt[x]);
    }
    assert forall|j: int| 0 <= j < g.tags.len() - 0 implies ts[i + j] == Tok::Tag(
        (#[trigger] g.tags[0 + j]).0,
        g.tags[0 + j].1,
    ) by {
        assert(gt[j] == tt[j]);
    }
    assert(g.tags.take(0) =~= Seq::<(Seq<char>, Seq<char>)>::empty());
    assert(empty_game() == RawGame { tags: g.tags.take(0), plies: seq![], outcome: seq![] });
    lemma_read_tags(ts, i, g.tags, 0, false);
    let m = i + tt.len();
    assert(g.plies.take(0) =~= Seq::<RawPly>::empty());
    assert(RawGame { tags: g.tags, plies: Seq::<RawPly>::empty(), outcome: Seq::<char>::empty() }
        == RawGame { tags: g.tags, plies: g.plies.take(0), outcome: seq![] });
    assert(ts.subrange(m, m + pt.len()) =~= pt) by {
        assert forall|x: int| 0 <= x < pt.len() implies ts.subrange(m, m + pt.len())[x] == pt[x] by {
            assert(ts[m + x] == gt[tt.len() + x]);
        }
    }
    assert(ts[m + pt.len()] == Tok::Outcome(g.outcome)) by {
        assert(gt[(tt.len() + pt.len()) as int] == Tok::Outcome(g.outcome));
    }
    lemma_read_plies(ts, m, g, 0, true, 0 < g.tags.len(), false);
}

proof fn lemma_read_all(ts: Seq<Tok>, i: int, gs: Seq<RawGame>, k: int)
    requires
        0 <= k <= gs.len(),
        0 <= i <= ts.len(),
        ts.subrange(i, ts.len() as int) == all_toks(gs, k),
    ensures
        games_from(ts, i, empty_game(), false, false, 0) == gs.skip(k),
    decreases gs.len() - k,
{
    if k >= gs.len() {
        assert(all_toks(gs, k).len() == 0);
        assert(gs.skip(k) =~= Seq::<RawGame>::empty());
    } else {
        let gt = game_toks(gs[k]);
        let rest = all_toks(gs, k + 1);
        assert(all_toks(gs, k) == gt + rest);
        assert(ts.subrange(i, i + gt.len()) =~= gt) by {
            assert forall|x: int| 0 <= x < gt.len() implies ts.subrange(i, i + gt.len())[x]
                == gt[x] by {
                assert(ts[i + x] == ts.subrange(i, ts.len() as int)[x]);
            }
        }
        lemma_read_game(ts, i, gs[k]);
        let m = i + gt.len();
        assert(ts.subrange(m, ts.len() as int) =~= rest) by {
            assert forall|x: int| 0 <= x < rest.len() implies ts.subrange(m, ts.len() as int)[x]
                == rest[x] by {
                assert(ts[m + x] == ts.subrange(i, ts.len() as int)[gt.len() + x]);
            }
        }
        lemma_read_all(ts, m, gs, k + 1);
        assert(gs.skip(k) =~= seq![gs[k]] + gs.skip(k + 1));
    }
}

// ---------------------------------------------------------------------------
// The laws.

/// Reading the text that `write` makes of canonical games gives back those
/// games: their tag pairs in order, their moves, their comments and their
/// termination markers.
pub proof fn law_read_after_write(gs: Seq<RawGame>)
    requires
        canonical(gs),
    ensures
        read(pgn_text(gs)) == gs,
{
    lemma_lex_text(gs);
    let ts = all_toks(gs, 0);
    assert(ts.subrange(0, ts.len() as int) =~= ts);
    lemma_read_all(ts, 0, gs, 0);
    assert(gs.skip(0) =~= gs);
}

/// Deriving evaluations and variations from the comments loses nothing of
/// what is written.
pub proof fn lemma_raw_decorate(gs: Seq<RawGame>)
    ensures
        raw_games(decorate_all(gs)) == gs,
{
    assert forall|k: int| 0 <= k < gs.len() implies #[trigger] raw_games(decorate_all(gs))[k]
        == gs[k] by {
        let g = gs[k];
        let r = raw_game(decorate(g));
        assert(r.plies =~= g.plies) by {
            assert forall|j: int| 0 <= j < g.plies.len() implies r.plies[j] == g.plies[j] by {
                assert(r.plies[j] == raw_ply(decorate_ply(g.plies[j])));
            }
        }
    }
    assert(raw_games(decorate_all(gs)) =~= gs);
}

/// A text that `write` made from canonical games is, once read, written
/// back byte for byte: if `parse` gives `games` for it, `write(games)` is
/// the text again.
pub proof fn law_write_after_parse(text: Seq<char>, gs: Seq<RawGame>, games: Seq<Game>)
    requires
        canonical(gs),
        text == pgn_text(gs),
        games_view(games) == decorate_all(read(text)),
    ensures
        pgn_text(raw_games(games_view(games))) == text,
{
    law_read_after_write(gs);
    lemma_raw_decorate(read(text));
}

} // verus!
