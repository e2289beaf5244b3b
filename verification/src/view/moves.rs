//! The list of moves.

use vstd::prelude::*;
use crate::model::{Eval, Ply, PlyView, marker_text, move_marker, plies_view, score_text};
use crate::text::{pad_end, push_padded_end};

verus! {

/// An evaluation as shown in the list; nothing for a ply without one, since
/// `0.00` would not tell a level position from a missing annotation.
pub open spec fn eval_text(e: Option<Eval>) -> Seq<char> {
    match e {
        None => seq![],
        Some(e) => score_text(e.score),
    }
}

/// The row of the ply with index `index`: `1.     d4      +0.32`.
pub open spec fn row_text(index: nat, p: PlyView) -> Seq<char> {
    pad_end(marker_text(index), 6) + seq![' '] + pad_end(p.san, 7) + seq![' '] + eval_text(p.eval)
}

/// How many plies to scroll past so that the current one stays in view:
/// the current move sits in the middle, except near either end. The current
/// ply has index `cursor - 1`, so the window never starts past it.
pub open spec fn moves_offset(cursor: nat, total: nat, height: nat) -> nat {
    if total <= height {
        0
    } else {
        let centred: nat = if cursor >= height / 2 { (cursor - height / 2) as nat } else { 0 };
        let back: nat = if cursor > 0 && centred > cursor - 1 {
            (cursor - 1) as nat
        } else {
            centred
        };
        if back <= total - height { back } else { (total - height) as nat }
    }
}

/// An evaluation as text.
pub fn render_eval(eval: Eval) -> (s: String)
    ensures
        s@ == score_text(eval.score),
{
    eval.score.render()
}

/// The row of the ply with index `index`.
pub fn row(index: usize, ply: &Ply) -> (s: String)
    ensures
        s@ == row_text(index as nat, ply@),
{
    let mut s = String::new();
    let marker = move_marker(index);
    push_padded_end(&mut s, marker.as_str(), 6);
    s.push(' ');
    push_padded_end(&mut s, ply.san.as_str(), 7);
    s.push(' ');
    match ply.eval {
        None => {},
        Some(e) => {
            let t = render_eval(e);
            s.append(t.as_str());
        },
    }
    assert(s@ =~= row_text(index as nat, ply@));
    s
}

/// How many plies to scroll past.
pub fn scroll_offset(cursor: usize, total: usize, height: usize) -> (off: usize)
    ensures
        off == moves_offset(cursor as nat, total as nat, height as nat),
        off <= total,
{
    if total <= height {
        return 0;
    }
    let centred = if cursor >= height / 2 { cursor - height / 2 } else { 0 };
    let back = if cursor > 0 && centred > cursor - 1 { cursor - 1 } else { centred };
    if back <= total - height { back } else { total - height }
}

/// The rows shown in a window of `height` rows, one ply per row, each with
/// whether it is the current ply. `cursor` is 0 for the initial position
/// and `n` after `plies[n - 1]`.
pub fn lines(plies: &Vec<Ply>, cursor: usize, height: usize) -> (rows: Vec<(String, bool)>)
    ensures
        ({
            let n = plies@.len();
            let off = moves_offset(cursor as nat, n as nat, height as nat);
            let end: int = if off + height <= n { off + height } else { n as int };
            &&& rows@.len() == end - off
            &&& forall|k: int|
                0 <= k < rows@.len() ==> {
                    &&& (#[trigger] rows@[k]).0@ == row_text(
                        (off + k) as nat,
                        plies_view(plies@)[off + k],
                    )
                    &&& rows@[k].1 == (off + k + 1 == cursor)
                }
        }),
        height >= 1 && 1 <= cursor <= plies@.len() ==> exists|k: int|
            0 <= k < rows@.len() && (#[trigger] rows@[k]).1 && (forall|j: int|
                0 <= j < rows@.len() && j != k ==> !(#[trigger] rows@[j]).1) && rows@[k].0@
                == row_text((cursor - 1) as nat, plies_view(plies@)[cursor - 1]),
        cursor == 0 ==> forall|k: int| 0 <= k < rows@.len() ==> !(#[trigger] rows@[k]).1,
{
    let n = plies.len();
    let off = scroll_offset(cursor, n, height);
    let end = if height <= n - off { off + height } else { n };
    let mut rows: Vec<(String, bool)> = Vec::new();
    let mut i = off;
    while i < end
        invariant
            off <= i <= end <= n == plies@.len(),
            off == moves_offset(cursor as nat, n as nat, height as nat),
            end == (if off + height <= n { off + height } else { n as int }),
            rows@.len() == i - off,
            forall|k: int|
                0 <= k < rows@.len() ==> {
                    &&& (#[trigger] rows@[k]).0@ == row_text(
                        (off + k) as nat,
                        plies_view(plies@)[off + k],
                    )
                    &&& rows@[k].1 == (off + k + 1 == cursor)
                },
        decreases end - i,
    {
        let text = row(i, &plies[i]);
        rows.push((text, i + 1 == cursor));
        i = i + 1;
    }
    proof {
        if height >= 1 && 1 <= cursor <= n {
            law_current_ply_visible(cursor as nat, n as nat, height as nat);
            let k = cursor - 1 - off;
            assert(rows@[k].1);
        }
    }
    rows
}

/// However small the window, the current ply is among the rows shown.
pub proof fn law_current_ply_visible(cursor: nat, total: nat, height: nat)
    requires
        height >= 1,
        1 <= cursor <= total,
    ensures
        moves_offset(cursor, total, height) <= cursor - 1 < moves_offset(cursor, total, height)
            + height,
{
}

} // verus!
