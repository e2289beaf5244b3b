//! The board as text.

use vstd::prelude::*;
use crate::chess::{Piece, Role, initial_piece, piece_at, piece_on};

verus! {

/// A piece as one character: `.` for an empty square, the piece's letter
/// otherwise, capital for White and small for Black.
pub open spec fn glyph_of(p: Option<Piece>) -> char {
    match p {
        None => '.',
        Some(piece) => match (piece.role, piece.white) {
            (Role::Pawn, true) => 'P',
            (Role::Knight, true) => 'N',
            (Role::Bishop, true) => 'B',
            (Role::Rook, true) => 'R',
            (Role::Queen, true) => 'Q',
            (Role::King, true) => 'K',
            (Role::Pawn, false) => 'p',
            (Role::Knight, false) => 'n',
            (Role::Bishop, false) => 'b',
            (Role::Rook, false) => 'r',
            (Role::Queen, false) => 'q',
            (Role::King, false) => 'k',
        },
    }
}

/// The digit of a rank, `0` for the first.
pub open spec fn rank_char(r: nat) -> char {
    crate::text::digit_char(r + 1)
}

/// The squares of rank `r` from file `f` on, each glyph followed by a space.
pub open spec fn cells(squares: Seq<Option<Piece>>, r: nat, f: nat) -> Seq<char>
    decreases 8 - f,
{
    if f >= 8 {
        seq![]
    } else {
        seq![glyph_of(squares[(r * 8 + f) as int]), ' '] + cells(squares, r, f + 1)
    }
}

/// The line of rank `r`: its digit, two spaces, its squares from the a-file.
pub open spec fn rank_line(squares: Seq<Option<Piece>>, r: nat) -> Seq<char> {
    seq![rank_char(r), ' ', ' '] + cells(squares, r, 0)
}

/// The line naming the files.
pub open spec fn files_line() -> Seq<char> {
    seq![' ', ' ', ' ', 'a', ' ', 'b', ' ', 'c', ' ', 'd', ' ', 'e', ' ', 'f', ' ', 'g', ' ', 'h']
}

/// A piece as one character.
pub fn glyph(p: Option<Piece>) -> (c: char)
    ensures
        c == glyph_of(p),
{
    match p {
        None => '.',
        Some(piece) => match (piece.role, piece.white) {
            (Role::Pawn, true) => 'P',
            (Role::Knight, true) => 'N',
            (Role::Bishop, true) => 'B',
            (Role::Rook, true) => 'R',
            (Role::Queen, true) => 'Q',
            (Role::King, true) => 'K',
            (Role::Pawn, false) => 'p',
            (Role::Knight, false) => 'n',
            (Role::Bishop, false) => 'b',
            (Role::Rook, false) => 'r',
            (Role::Queen, false) => 'q',
            (Role::King, false) => 'k',
        },
    }
}

fn rank_digit(r: usize) -> (c: char)
    requires
        r < 8,
    ensures
        c == rank_char(r as nat),
{
    if r == 0 { '1' }
    else if r == 1 { '2' }
    else if r == 2 { '3' }
    else if r == 3 { '4' }
    else if r == 4 { '5' }
    else if r == 5 { '6' }
    else if r == 6 { '7' }
    else { '8' }
}

/// The board seen from White: the eighth rank first, then the line of
/// files. Empty squares are `.`, which keeps the columns countable.
///
/// `squares` holds the 64 squares, a1 first, then b1, ..., h8.
pub fn lines(squares: &Vec<Option<Piece>>) -> (out: Vec<String>)
    requires
        squares@.len() == 64,
    ensures
        out@.len() == 9,
        forall|k: int| 0 <= k < 8 ==> (#[trigger] out@[k])@ == rank_line(squares@, (7 - k) as nat),
        out@[8]@ == files_line(),
{
    let mut out: Vec<String> = Vec::new();
    let mut k: usize = 0;
    while k < 8
        invariant
            k <= 8,
            squares@.len() == 64,
            out@.len() == k,
            forall|j: int| 0 <= j < k ==> (#[trigger] out@[j])@ == rank_line(squares@, (7 - j) as nat),
        decreases 8 - k,
    {
        let r = 7 - k;
        let mut line = String::new();
        line.push(rank_digit(r));
        line.push(' ');
        line.push(' ');
        let mut f: usize = 0;
        while f < 8
            invariant
                f <= 8,
                r < 8,
                squares@.len() == 64,
                seq![rank_char(r as nat), ' ', ' '] + cells(squares@, r as nat, 0) == line@ + cells(
                    squares@,
                    r as nat,
                    f as nat,
                ),
            decreases 8 - f,
        {
            let ghost before = line@;
            line.push(glyph(squares[r * 8 + f]));
            line.push(' ');
            assert(before + cells(squares@, r as nat, f as nat) =~= line@ + cells(
                squares@,
                r as nat,
                (f + 1) as nat,
            ));
            f = f + 1;
        }
        assert(line@ + cells(squares@, r as nat, 8) =~= line@);
        out.push(line);
        k = k + 1;
    }
    let mut files = String::new();
    files.push(' ');
    files.push(' ');
    files.push(' ');
    files.push('a');
    files.push(' ');
    files.push('b');
    files.push(' ');
    files.push('c');
    files.push(' ');
    files.push('d');
    files.push(' ');
    files.push('e');
    files.push(' ');
    files.push('f');
    files.push(' ');
    files.push('g');
    files.push(' ');
    files.push('h');
    assert(files@ =~= files_line());
    out.push(files);
    out
}

/// The 64 squares at the start of a regular game, a1 first.
pub open spec fn initial_squares() -> Seq<Option<Piece>> {
    Seq::new(64, |i: int| initial_piece(i as u32))
}

/// The 64 squares of `pos`, a1 first, then b1, ..., h8.
pub open spec fn board_of(pos: shakmaty::Chess) -> Seq<Option<Piece>> {
    Seq::new(64, |i: int| piece_on(pos, i as u32))
}

/// The 64 squares of a position, a1 first, then b1, ..., h8, as `shakmaty`
/// reports them.
pub fn squares_of(pos: &shakmaty::Chess) -> (squares: Vec<Option<Piece>>)
    ensures
        squares@ == board_of(*pos),
{
    let mut squares: Vec<Option<Piece>> = Vec::new();
    let mut i: u32 = 0;
    while i < 64
        invariant
            i <= 64,
            squares@ =~= board_of(*pos).take(i as int),
        decreases 64 - i,
    {
        squares.push(piece_at(pos, i));
        i = i + 1;
    }
    assert(board_of(*pos).take(64) =~= board_of(*pos));
    squares
}

} // verus!
