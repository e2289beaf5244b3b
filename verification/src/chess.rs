//! The rules of chess, which `shakmaty` knows: positions, moves, and their
//! notations. Positions are opaque here; the library carries them from move
//! to move and asks `shakmaty` what it needs to know of them.

use vstd::prelude::*;
use shakmaty::Position;

verus! {

/// A position of a game of standard chess.
#[verifier::external_type_specification]
#[verifier::external_body]
pub struct ExChess(shakmaty::Chess);

/// A legal move in some position.
#[verifier::external_type_specification]
#[verifier::external_body]
pub struct ExMove(shakmaty::Move);

/// A move in standard algebraic notation, not yet tied to a position.
#[verifier::external_type_specification]
#[verifier::external_body]
pub struct ExSan(shakmaty::san::San);

/// A move in UCI notation, not yet tied to a position.
#[verifier::external_type_specification]
#[verifier::external_body]
pub struct ExUciMove(shakmaty::uci::UciMove);

/// `Clone` of `shakmaty::Chess` is derived over plain data down to its
/// leaves, so a clone equals the original.
pub assume_specification[ <shakmaty::Chess as Clone>::clone ](pos: &shakmaty::Chess) -> (res:
    shakmaty::Chess)
    ensures
        res == *pos,
;

/// The kinds of chessmen.
#[derive(Debug, Clone, Copy, PartialEq, Eq, Structural)]
pub enum Role {
    Pawn,
    Knight,
    Bishop,
    Rook,
    Queen,
    King,
}

/// A chessman: its kind and whether it is White's.
#[derive(Debug, Clone, Copy, PartialEq, Eq, Structural)]
pub struct Piece {
    pub role: Role,
    pub white: bool,
}

/// The piece on square `sq` (0 is a1, 7 is h1, 63 is h8) at the start of a
/// regular game: White's pieces on the first two ranks, Black's on the last
/// two, rooks, knights, bishops, queen on the d-file, king on the e-file.
pub open spec fn initial_piece(sq: u32) -> Option<Piece> {
    let rank = sq / 8;
    let file = sq % 8;
    let back = if file == 0 || file == 7 {
        Role::Rook
    } else if file == 1 || file == 6 {
        Role::Knight
    } else if file == 2 || file == 5 {
        Role::Bishop
    } else if file == 3 {
        Role::Queen
    } else {
        Role::King
    };
    if rank == 0 {
        Some(Piece { role: back, white: true })
    } else if rank == 1 {
        Some(Piece { role: Role::Pawn, white: true })
    } else if rank == 6 {
        Some(Piece { role: Role::Pawn, white: false })
    } else if rank == 7 {
        Some(Piece { role: back, white: false })
    } else {
        None
    }
}

/// Whether the board of `pos` is that of the start of a regular game.
pub open spec fn initial_board(pos: shakmaty::Chess) -> bool {
    forall|sq: u32| sq < 64 ==> #[trigger] piece_on(pos, sq) == initial_piece(sq)
}

/// Whether White is to move in `pos` (`Position::turn`).
pub uninterp spec fn white_to_move(pos: shakmaty::Chess) -> bool;

/// The squares of the rooks that may still castle in `pos`, as the bits of
/// a bitboard, a1 the lowest (`Castles::castling_rights` of
/// `Position::castles`).
pub uninterp spec fn castling_rights(pos: shakmaty::Chess) -> u64;

/// The square on which a pawn may be taken en passant in `pos`, if any, by
/// its index (`Position::maybe_ep_square`).
pub uninterp spec fn en_passant_square(pos: shakmaty::Chess) -> Option<u32>;

/// The plies since the last capture or pawn move (`Position::halfmoves`).
pub uninterp spec fn halfmove_clock(pos: shakmaty::Chess) -> u32;

/// The number of the current move (`Position::fullmoves`).
pub uninterp spec fn fullmove_number(pos: shakmaty::Chess) -> u32;

/// Whether `pos` is the start of a regular game: the initial board, White
/// to move, all four castlings open, no en passant square, both counters
/// at their start.
pub open spec fn initial_position(pos: shakmaty::Chess) -> bool {
    &&& initial_board(pos)
    &&& white_to_move(pos)
    &&& castling_rights(pos) == 0x8100_0000_0000_0081u64
    &&& en_passant_square(pos) is None
    &&& halfmove_clock(pos) == 0
    &&& fullmove_number(pos) == 1
}

/// `shakmaty::Chess::default`: `Chess::new`, the initial position of a
/// regular game: `Board::new`, White to move, `Castles::new` (rights on
/// the four corners), no en passant square, halfmove clock 0, move 1.
#[verifier::external_body]
pub fn start_position() -> (pos: shakmaty::Chess)
    ensures
        initial_board(pos),
        white_to_move(pos),
        castling_rights(pos) == 0x8100_0000_0000_0081u64,
        en_passant_square(pos) is None,
        halfmove_clock(pos) == 0,
        fullmove_number(pos) == 1,
{
    shakmaty::Chess::default()
}

/// The move that `bytes` spell in SAN, a check or mate suffix allowed, as
/// `shakmaty` reads it; `None` when they are not SAN.
pub uninterp spec fn san_parse(bytes: Seq<u8>) -> Option<shakmaty::san::San>;

/// The unique legal move in `pos` that `san` names, as `shakmaty` finds it;
/// `None` when there is none or more than one.
pub uninterp spec fn san_move(san: shakmaty::san::San, pos: shakmaty::Chess) -> Option<
    shakmaty::Move,
>;

/// The position after `m` in `pos`, as `shakmaty` plays it; `None` when `m`
/// is not legal in `pos`.
pub uninterp spec fn played(pos: shakmaty::Chess, m: shakmaty::Move) -> Option<shakmaty::Chess>;

/// The move that `bytes` spell in UCI notation, as `shakmaty` reads it;
/// `None` when they are not UCI.
pub uninterp spec fn uci_parse(bytes: Seq<u8>) -> Option<shakmaty::uci::UciMove>;

/// The legal move in `pos` that `uci` names, as `shakmaty` finds it; `None`
/// when there is none.
pub uninterp spec fn uci_move(uci: shakmaty::uci::UciMove, pos: shakmaty::Chess) -> Option<
    shakmaty::Move,
>;

/// `m` in SAN for `pos`, with the check or mate suffix, as `shakmaty` writes
/// it.
pub uninterp spec fn san_plus(pos: shakmaty::Chess, m: shakmaty::Move) -> Seq<char>;

/// Whether `bytes` hold an ASCII letter or a `-`: every SAN does, as it
/// names a square, a castling (`O-O`) or the null move (`--`).
pub open spec fn spells_move(bytes: Seq<u8>) -> bool {
    exists|k: int|
        0 <= k < bytes.len() && ((65 <= #[trigger] bytes[k] <= 90) || (97 <= bytes[k] <= 122)
            || bytes[k] == 45)
}

/// `shakmaty::san::San::from_ascii`: reads a move in SAN (a check or mate
/// suffix is allowed), `None` when the text is not SAN. The result is named
/// (`san_parse`); which texts are SAN is left to `shakmaty`, except that its
/// reader (`read_san`) accepts none without a letter or a `-`.
#[verifier::external_body]
pub fn san_from_ascii(text: &[u8]) -> (san: Option<shakmaty::san::San>)
    ensures
        san == san_parse(text@),
        san is Some ==> spells_move(text@),
{
    shakmaty::san::San::from_ascii(text).ok()
}

/// `shakmaty::san::San::to_move`: the unique legal move in `pos` that the
/// SAN names, or `None` when there is no such move or more than one. The
/// move is named (`san_move`); the source finds it among the legal moves
/// (`san_candidates`), so playing it succeeds.
#[verifier::external_body]
pub fn san_to_move(san: shakmaty::san::San, pos: &shakmaty::Chess) -> (m: Option<shakmaty::Move>)
    ensures
        m == san_move(san, *pos),
        m matches Some(mv) ==> played(*pos, mv) is Some,
{
    san.to_move(pos).ok()
}

/// `shakmaty::Position::play`: the position after `m`, or `None` when `m`
/// is not legal in `pos`. The position is named (`played`), not stated.
#[verifier::external_body]
pub fn play(pos: shakmaty::Chess, m: shakmaty::Move) -> (next: Option<shakmaty::Chess>)
    ensures
        next == played(pos, m),
{
    pos.play(m).ok()
}

/// `shakmaty::uci::UciMove::from_ascii`: reads a move in UCI notation,
/// `None` when the text is not UCI. The result is named (`uci_parse`).
#[verifier::external_body]
pub fn uci_from_ascii(text: &[u8]) -> (uci: Option<shakmaty::uci::UciMove>)
    ensures
        uci == uci_parse(text@),
{
    shakmaty::uci::UciMove::from_ascii(text).ok()
}

/// `shakmaty::uci::UciMove::to_move`: the legal move in `pos` that the UCI
/// move names, or `None`. The move is named (`uci_move`); the source returns
/// it only when `is_legal` holds, so playing it succeeds.
#[verifier::external_body]
pub fn uci_to_move(uci: shakmaty::uci::UciMove, pos: &shakmaty::Chess) -> (m: Option<
    shakmaty::Move,
>)
    ensures
        m == uci_move(uci, *pos),
        m matches Some(mv) ==> played(*pos, mv) is Some,
{
    uci.to_move(pos).ok()
}

/// `shakmaty::san::SanPlus::from_move`: `m` in SAN for `pos`, with the check
/// or mate suffix, as text. The text is named (`san_plus`), not stated.
#[verifier::external_body]
pub fn san_plus_text(pos: &shakmaty::Chess, m: shakmaty::Move) -> (text: String)
    ensures
        text@ == san_plus(*pos, m),
{
    shakmaty::san::SanPlus::from_move(pos.clone(), m).to_string()
}

/// The chessman that stands on square `square` (0 is a1, 7 is h1, 63 is
/// h8) of the board of `pos`, as `shakmaty` keeps it.
pub uninterp spec fn piece_on(pos: shakmaty::Chess, square: u32) -> Option<Piece>;

/// `shakmaty::Board::piece_at` on the board of `pos`, with the square given
/// by its index (`shakmaty::Square::new` panics beyond 63, hence the bound).
/// The piece is named, not stated: it depends on `pos` and `square` alone.
#[verifier::external_body]
pub fn piece_at(pos: &shakmaty::Chess, square: u32) -> (piece: Option<Piece>)
    requires
        square < 64,
    ensures
        piece == piece_on(*pos, square),
{
    let p = pos.board().piece_at(shakmaty::Square::new(square))?;
    let role = match p.role {
        shakmaty::Role::Pawn => Role::Pawn,
        shakmaty::Role::Knight => Role::Knight,
        shakmaty::Role::Bishop => Role::Bishop,
        shakmaty::Role::Rook => Role::Rook,
        shakmaty::Role::Queen => Role::Queen,
        shakmaty::Role::King => Role::King,
    };
    let white = match p.color { shakmaty::Color::White => true, shakmaty::Color::Black => false };
    Some(Piece { role, white })
}

} // verus!
