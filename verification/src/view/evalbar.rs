//! The evaluation bar beside the board.

use vstd::prelude::*;
use crate::model::{Eval, Score};

verus! {

/// The height of the bar: the eight ranks of the board.
pub const HEIGHT: usize = 8;

/// How many of the eight cells White fills.
///
/// Four cells is equality; four pawns either way fills or empties the bar.
/// This is `round(clamp(1/2 + cp/800, 0, 1) * 8)`, halves rounded up, which in
/// whole numbers is `floor((cp + 450) / 100)` held to `0..=8`. A mate fills
/// the bar for the side that mates.
pub open spec fn filled(score: Score) -> nat {
    match score {
        Score::Mate(n) => if n > 0 { 8 } else { 0 },
        Score::Cp(cp) => {
            let r = (cp + 450) / 100;
            if r < 0 { 0 } else if r > 8 { 8 } else { r as nat }
        },
    }
}

/// The bar, top cell first: filled cells from the bottom are `█`, the rest
/// `░`; without an evaluation the bar is blank, so that a level position and
/// a missing annotation look different.
pub open spec fn bar(eval: Option<Eval>) -> Seq<char> {
    match eval {
        None => Seq::new(8, |i: int| ' '),
        Some(e) => Seq::new(8, |i: int| if 8 - i <= filled(e.score) { '█' } else { '░' }),
    }
}

/// The bar for an evaluation, top cell first.
pub fn column(eval: Option<Eval>) -> (cells: Vec<char>)
    ensures
        cells@ == bar(eval),
{
    let mut cells: Vec<char> = Vec::new();
    match eval {
        None => {
            let mut i: usize = 0;
            while i < HEIGHT
                invariant
                    i <= HEIGHT,
                    cells@ =~= Seq::new(i as nat, |k: int| ' '),
                decreases HEIGHT - i,
            {
                cells.push(' ');
                i = i + 1;
            }
        },
        Some(e) => {
            let full = filled_rows(e.score);
            let mut i: usize = 0;
            while i < HEIGHT
                invariant
                    i <= HEIGHT,
                    full == filled(e.score),
                    cells@ =~= Seq::new(
                        i as nat,
                        |k: int| if 8 - k <= filled(e.score) { '█' } else { '░' },
                    ),
                decreases HEIGHT - i,
            {
                cells.push(if HEIGHT - i <= full { '█' } else { '░' });
                i = i + 1;
            }
        },
    }
    cells
}

/// How many cells White fills for a score.
fn filled_rows(score: Score) -> (n: usize)
    ensures
        n == filled(score),
        n <= HEIGHT,
{
    match score {
        Score::Mate(n) => if n > 0 { HEIGHT } else { 0 },
        Score::Cp(cp) => {
            if cp <= -450 {
                return 0;
            }
            let r = (cp as i64 + 450) / 100;
            if r > 8 { HEIGHT } else { r as usize }
        },
    }
}

/// A level position fills half the bar, and White's share never shrinks as
/// White's score grows.
pub proof fn law_bar_grows_with_the_score(a: i32, b: i32)
    requires
        a <= b,
    ensures
        filled(Score::Cp(0)) == 4,
        filled(Score::Cp(a)) <= filled(Score::Cp(b)),
        filled(Score::Cp(a)) <= 8,
{
    assert((a + 450) / 100 <= (b + 450) / 100) by (nonlinear_arith)
        requires
            a <= b,
    ;
}

} // verus!
