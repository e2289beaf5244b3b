//! The status line under the board: evaluation, depth and principal
//! variation.

use vstd::prelude::*;
use crate::chess::{play, played, san_plus, san_plus_text, uci_from_ascii, uci_move, uci_parse, uci_to_move};
use vstd::utf8::encode_utf8;
use crate::model::{Ply, marker_text, move_marker, score_text};
use crate::pgn::lex::trim_end;
use crate::text::{decimal, is_ws, pad_start, push_decimal, push_padded_start, ws};

verus! {

/// The principal variation in SAN: each move followed by a space, a move
/// number before the first move and before each of White's moves (so that
/// it is clear whose move the line starts with), the trailing space
/// dropped. `index` is that of the ply the variation follows; `sans[i]` is
/// the ply with index `index + i + 1`.
pub open spec fn pv_words(sans: Seq<Seq<char>>, index: nat, i: nat) -> Seq<char>
    decreases sans.len() - i,
{
    if i >= sans.len() {
        seq![]
    } else {
        let ply = index + i + 1;
        (if i == 0 || ply % 2 == 0 {
            marker_text(ply) + seq![' ']
        } else {
            seq![]
        }) + sans[i as int] + seq![' '] + pv_words(sans, index, i + 1)
    }
}

pub open spec fn pv_text(sans: Seq<Seq<char>>, index: nat) -> Seq<char> {
    trim_end(pv_words(sans, index, 0))
}

/// The status line for the ply with index `index`, given the variation as
/// written in SAN: the score right-aligned in eight columns, then the depth,
/// then the variation. The depth comes before the variation, whose length
/// varies, so that a narrow terminal never cuts a number in two.
pub open spec fn status_text(score: Seq<char>, depth: Option<u32>, pv: Option<Seq<char>>) -> Seq<char> {
    pad_start(score, 8) + (match depth {
        Some(d) => seq![' ', ' ', ' ', 'd', 'e', 'p', 't', 'h', ' '] + decimal(d as nat),
        None => seq![],
    }) + (match pv {
        Some(p) => seq![' ', ' ', ' ', 'P', 'V', ' '] + p,
        None => seq![],
    })
}

/// The variation, given each move already in SAN.
pub fn pv_line(sans: &Vec<String>, index: usize) -> (s: String)
    requires
        index + sans@.len() + 1 <= usize::MAX,
    ensures
        s@ == pv_text(sans.deep_view(), index as nat),
{
    let ghost all = sans.deep_view();
    let mut out: Vec<char> = Vec::new();
    let mut i: usize = 0;
    while i < sans.len()
        invariant
            i <= sans@.len(),
            all == sans.deep_view(),
            index + sans@.len() + 1 <= usize::MAX,
            pv_words(all, index as nat, 0) == out@ + pv_words(all, index as nat, i as nat),
        decreases sans@.len() - i,
    {
        let ply = index + i + 1;
        let ghost before = out@;
        let mut piece = String::new();
        if i == 0 || ply % 2 == 0 {
            piece.append(move_marker(ply).as_str());
            piece.push(' ');
        }
        piece.append(sans[i].as_str());
        piece.push(' ');
        let cs = crate::text::chars_of(piece.as_str());
        let mut j: usize = 0;
        while j < cs.len()
            invariant
                j <= cs@.len(),
                out@ == before + cs@.take(j as int),
            decreases cs@.len() - j,
        {
            out.push(cs[j]);
            j = j + 1;
            assert(out@ =~= before + cs@.take(j as int));
        }
        assert(cs@.take(j as int) =~= cs@);
        assert(all[i as int] == sans@[i as int]@);
        assert(pv_words(all, index as nat, 0) =~= out@ + pv_words(all, index as nat, (i + 1) as nat));
        i = i + 1;
    }
    assert(out@ + pv_words(all, index as nat, i as nat) =~= out@);
    let mut hi = out.len();
    assert(out@.take(hi as int) =~= out@);
    while hi > 0 && ws(out[hi - 1])
        invariant
            hi <= out@.len(),
            trim_end(out@) == trim_end(out@.take(hi as int)),
        decreases hi,
    {
        assert(out@.take(hi as int).drop_last() =~= out@.take(hi - 1));
        hi = hi - 1;
    }
    let kept = crate::pgn::lex::slice_to_vec(&out, 0, hi);
    assert(out@.subrange(0, hi as int) =~= out@.take(hi as int));
    crate::text::string_of(kept.as_slice())
}

/// The moves of `words` from the one with index `i` on, read as UCI and
/// played from `pos`, each in SAN with its check or mate suffix; `None` when
/// one cannot be read or played.
pub open spec fn sans_from_uci(pos: shakmaty::Chess, words: Seq<Seq<char>>, i: nat) -> Option<
    Seq<Seq<char>>,
>
    decreases words.len() - i,
{
    if i >= words.len() {
        Some(seq![])
    } else {
        match uci_parse(encode_utf8(words[i as int])) {
            None => None,
            Some(u) => match uci_move(u, pos) {
                None => None,
                Some(m) => match played(pos, m) {
                    None => None,
                    Some(next) => match sans_from_uci(next, words, i + 1) {
                        None => None,
                        Some(rest) => Some(seq![san_plus(pos, m)] + rest),
                    },
                },
            },
        }
    }
}

/// The variation that follows the ply with index `index`, whose position is
/// `after`, in SAN: none without moves, or when one of them cannot be read
/// or played.
pub open spec fn pv_of(after: shakmaty::Chess, words: Seq<Seq<char>>, index: nat) -> Option<
    Seq<char>,
> {
    if words.len() == 0 {
        None
    } else {
        match sans_from_uci(after, words, 0) {
            Some(sans) => Some(pv_text(sans, index)),
            None => None,
        }
    }
}

/// The variation of a ply in its status line: `pv_of`, but none where the
/// move numbers would not fit in a `usize`.
pub open spec fn shown_pv(p: Ply, index: nat) -> Option<Seq<char>> {
    if index + p.pv@.len() + 1 <= usize::MAX {
        pv_of(p.position, p.pv.deep_view(), index)
    } else {
        None
    }
}

spec fn glue(done: Seq<Seq<char>>, r: Option<Seq<Seq<char>>>) -> Option<Seq<Seq<char>>> {
    match r {
        Some(rest) => Some(done + rest),
        None => None,
    }
}

proof fn lemma_glue(done: Seq<Seq<char>>, san: Seq<char>, r: Option<Seq<Seq<char>>>)
    ensures
        glue(done, glue(seq![san], r)) == glue(done.push(san), r),
{
    match r {
        Some(rest) => {
            assert(done + (seq![san] + rest) =~= done.push(san) + rest);
        },
        None => {},
    }
}

/// The principal variation in SAN, converted from the UCI moves written in
/// the annotation by playing them from `after`; `None` when there are none,
/// or when one cannot be read or played, there the conversion stops.
fn pv_in_san(after: &shakmaty::Chess, pv: &Vec<String>, index: usize) -> (r: Option<String>)
    requires
        index + pv@.len() + 1 <= usize::MAX,
    ensures
        r.deep_view() == pv_of(*after, pv.deep_view(), index as nat),
{
    if pv.len() == 0 {
        return None;
    }
    let ghost words = pv.deep_view();
    let mut pos = after.clone();
    let mut sans: Vec<String> = Vec::new();
    let mut i: usize = 0;
    while i < pv.len()
        invariant
            i <= pv@.len(),
            words == pv.deep_view(),
            sans@.len() == i,
            sans_from_uci(*after, words, 0) == glue(sans.deep_view(), sans_from_uci(pos, words, i as nat)),
        decreases pv@.len() - i,
    {
        assert(words[i as int] == pv@[i as int]@);
        let uci = match uci_from_ascii(pv[i].as_str().as_bytes()) {
            Some(u) => u,
            None => return None,
        };
        let m = match uci_to_move(uci, &pos) {
            Some(m) => m,
            None => return None,
        };
        let san = san_plus_text(&pos, m);
        let ghost before = sans.deep_view();
        sans.push(san);
        assert(sans.deep_view() =~= before.push(san@));
        pos = match play(pos, m) {
            Some(next) => next,
            None => return None,
        };
        proof {
            lemma_glue(before, san@, sans_from_uci(pos, words, (i + 1) as nat));
        }
        i = i + 1;
    }
    assert(sans.deep_view() + seq![] =~= sans.deep_view());
    Some(pv_line(&sans, index))
}

/// The status line of a ply: empty without a ply or an evaluation.
/// `index` is the index of the ply, which decides the move numbers of the
/// variation.
pub fn line(ply: Option<&Ply>, index: usize) -> (s: String)
    ensures
        s@ == match ply {
            None => seq![],
            Some(p) => match p.eval {
                None => seq![],
                Some(e) => status_text(score_text(e.score), e.depth, shown_pv(*p, index as nat)),
            },
        },
{
    let p = match ply {
        None => return String::new(),
        Some(p) => p,
    };
    let e = match p.eval {
        None => return String::new(),
        Some(e) => e,
    };
    let mut out = String::new();
    let score = e.score.render();
    push_padded_start(&mut out, score.as_str(), 8);
    match e.depth {
        Some(d) => {
            out.append("   depth ");
            proof {
                reveal_strlit("   depth ");
            }
            push_decimal(&mut out, d as u64);
        },
        None => {},
    }
    let pv = if index <= usize::MAX - 1 && p.pv.len() <= usize::MAX - 1 - index {
        pv_in_san(&p.position, &p.pv, index)
    } else {
        None
    };
    let ghost pvv: Option<Seq<char>> = pv.deep_view();
    assert(pvv == shown_pv(*p, index as nat));
    match pv {
        Some(t) => {
            out.append("   PV ");
            proof {
                reveal_strlit("   PV ");
            }
            out.append(t.as_str());
        },
        None => {},
    }
    assert(out@ =~= status_text(score_text(e.score), e.depth, pvv));
    out
}

/// The variation shows one move for each move written, and each move as
/// `shakmaty` writes it in SAN for the position it is played in, its check
/// or mate mark kept: the move read from `words[i]` in `pos` leads the
/// variation from there, and the rest is the variation from the position it
/// reaches.
pub proof fn law_variation_moves_as_shakmaty_writes_them(
    pos: shakmaty::Chess,
    words: Seq<Seq<char>>,
    i: nat,
    u: shakmaty::uci::UciMove,
    m: shakmaty::Move,
    next: shakmaty::Chess,
)
    requires
        i < words.len(),
        uci_parse(encode_utf8(words[i as int])) == Some(u),
        uci_move(u, pos) == Some(m),
        played(pos, m) == Some(next),
    ensures
        sans_from_uci(pos, words, i) matches Some(sans) ==> sans.len() == words.len() - i
            && sans[0] == san_plus(pos, m) && sans_from_uci(next, words, i + 1) == Some(
            sans.drop_first(),
        ),
        sans_from_uci(pos, words, i) is None <==> sans_from_uci(next, words, i + 1) is None,
{
    lemma_variation_length(pos, words, i);
    match sans_from_uci(next, words, i + 1) {
        Some(rest) => {
            assert((seq![san_plus(pos, m)] + rest).drop_first() =~= rest);
        },
        None => {},
    }
}

/// A variation that converts has one move for each word from `i` on.
pub proof fn lemma_variation_length(pos: shakmaty::Chess, words: Seq<Seq<char>>, i: nat)
    ensures
        sans_from_uci(pos, words, i) matches Some(sans) ==> sans.len() == if i <= words.len() {
            words.len() - i
        } else {
            0
        },
    decreases words.len() - i,
{
    if i < words.len() {
        match uci_parse(encode_utf8(words[i as int])) {
            None => {},
            Some(u) => match uci_move(u, pos) {
                None => {},
                Some(m) => match played(pos, m) {
                    None => {},
                    Some(next) => {
                        lemma_variation_length(next, words, i + 1);
                    },
                },
            },
        }
    }
}

} // verus!
