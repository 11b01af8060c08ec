//! The rules of chess, as far as the archive needs them: the positions that
//! follow a position, the reading of move and position notation, and the
//! comparison of positions.
//!
//! Move generation itself is the work of the `shakmaty` crate. It is reached
//! through three functions whose contracts are taken on trust; each names
//! what `shakmaty` computes on given input and claims nothing more of it.

use shakmaty::fen::{Epd, Fen};
use shakmaty::san::SanPlus;
use shakmaty::{CastlingMode, Chess, EnPassantMode, Position as _};
use vstd::prelude::*;

use crate::text::{bytes_eq, bytes_of, text_bytes};

verus! {

/// A chess position.
///
/// `placement` records the pieces, the side to move, the castling rights and
/// the en-passant square, in the notation of the first four fields of a FEN
/// record. The two counters are bookkeeping: they say how a position was
/// reached, not which position it is.
///
/// The positions that this module hands out carry their placement as
/// `shakmaty` writes it, with the en-passant square named only where a
/// capture on it is legal. Two such positions are the same position exactly
/// where their placements are the same bytes.
#[derive(Clone, Debug)]
pub struct Position {
    pub placement: Vec<u8>,
    pub halfmoves: u32,
    pub fullmoves: u32,
}

/// What a [`Position`] stands for in contracts.
pub struct PositionView {
    pub placement: Seq<u8>,
    pub halfmoves: u32,
    pub fullmoves: u32,
}

impl View for Position {
    type V = PositionView;

    open spec fn view(&self) -> PositionView {
        PositionView {
            placement: self.placement@,
            halfmoves: self.halfmoves,
            fullmoves: self.fullmoves,
        }
    }
}

/// A legal move in some position, with the position it leads to.
#[derive(Clone, Debug)]
pub struct Successor {
    /// The move in standard algebraic notation, as the rules engine writes it.
    pub san: Vec<u8>,
    /// The position after the move.
    pub position: Position,
}

/// What a [`Successor`] stands for in contracts.
pub struct SuccessorView {
    pub san: Seq<u8>,
    pub position: PositionView,
}

impl View for Successor {
    type V = SuccessorView;

    open spec fn view(&self) -> SuccessorView {
        SuccessorView { san: self.san@, position: self.position@ }
    }
}

/// The views of a list of successors, in order.
pub open spec fn successor_views(list: Seq<Successor>) -> Seq<SuccessorView> {
    Seq::new(list.len(), |i: int| list[i]@)
}

/// Why a FEN record was not accepted.
#[derive(Clone, Copy, Debug, PartialEq, Eq, Structural)]
pub enum FenError {
    /// The text is not a FEN record.
    Malformed,
    /// The record is well formed but describes no position that a game of
    /// standard chess can be played from.
    Illegal,
}

/// The legal moves of `pos` in the order in which `shakmaty` generates them,
/// each with the position it leads to; `None` where `pos` is no playable
/// position.
pub uninterp spec fn successors_of(pos: PositionView) -> Option<Seq<SuccessorView>>;

/// The notation that `shakmaty` writes for the legal move that `san` denotes
/// in `pos`; `None` where `san` denotes no single legal move there.
pub uninterp spec fn canonical_san(pos: PositionView, san: Seq<u8>) -> Option<Seq<u8>>;

/// What `shakmaty` makes of `text` read as a FEN record.
pub uninterp spec fn fen_reading(text: Seq<u8>) -> Result<PositionView, FenError>;

/// Calls `shakmaty` for the legal moves of a position: `Fen::from_ascii` and
/// `Fen::into_position` rebuild the position, `Position::legal_moves` lists
/// the moves, and `SanPlus::from_move_and_play_unchecked` writes each move
/// and plays it. The contract only gives the outcome its name.
#[verifier::external_body]
fn engine_successors(pos: &Position) -> (r: Option<Vec<Successor>>)
    ensures
        match r {
            Some(list) => successors_of(pos@) == Some(successor_views(list@)),
            None => successors_of(pos@) is None,
        },
{
    let placement = String::from_utf8_lossy(&pos.placement);
    let record = format!("{} {} {}", placement, pos.halfmoves, pos.fullmoves);
    let fen = Fen::from_ascii(record.as_bytes()).ok()?;
    let chess: Chess = fen.into_position(CastlingMode::Standard).ok()?;
    Some(chess.legal_moves().iter().map(|m| {
        let mut next = chess.clone();
        let san = SanPlus::from_move_and_play_unchecked(&mut next, m).to_string().into_bytes();
        let setup = next.into_setup(EnPassantMode::Legal);
        let (halfmoves, fullmoves) = (setup.halfmoves, setup.fullmoves.get());
        let placement = Epd::from_setup(setup).to_string().into_bytes();
        Successor { san, position: Position { placement, halfmoves, fullmoves } }
    }).collect())
}

/// Calls `shakmaty` to resolve a move: `Fen::from_ascii` and
/// `Fen::into_position` rebuild the position, `SanPlus::from_ascii` reads
/// the notation, `San::to_move` finds the legal move it denotes, and
/// `SanPlus::from_move_and_play_unchecked` writes that move back. The
/// contract only gives the outcome its name.
#[verifier::external_body]
pub(crate) fn engine_canonical_san(pos: &Position, san: &[u8]) -> (r: Option<Vec<u8>>)
    ensures
        match r {
            Some(text) => canonical_san(pos@, san@) == Some(text@),
            None => canonical_san(pos@, san@) is None,
        },
{
    let placement = String::from_utf8_lossy(&pos.placement);
    let record = format!("{} {} {}", placement, pos.halfmoves, pos.fullmoves);
    let fen = Fen::from_ascii(record.as_bytes()).ok()?;
    let mut chess: Chess = fen.into_position(CastlingMode::Standard).ok()?;
    let m = SanPlus::from_ascii(san).ok()?.san.to_move(&chess).ok()?;
    Some(SanPlus::from_move_and_play_unchecked(&mut chess, &m).to_string().into_bytes())
}

/// Calls `shakmaty` to read a FEN record: `Fen::from_ascii` parses it and
/// `Fen::into_position` checks that the position is playable. A failure of
/// the first is reported as `Malformed`, of the second as `Illegal`. The
/// contract only gives the outcome its name.
#[verifier::external_body]
fn engine_read_fen(text: &[u8]) -> (r: Result<Position, FenError>)
    ensures
        match r {
            Ok(pos) => fen_reading(text@) == Ok::<PositionView, FenError>(pos@),
            Err(e) => fen_reading(text@) == Err::<PositionView, FenError>(e),
        },
{
    let fen = Fen::from_ascii(text).map_err(|_| FenError::Malformed)?;
    let chess: Chess = fen.into_position(CastlingMode::Standard).map_err(|_| FenError::Illegal)?;
    let setup = chess.into_setup(EnPassantMode::Legal);
    let (halfmoves, fullmoves) = (setup.halfmoves, setup.fullmoves.get());
    let placement = Epd::from_setup(setup).to_string().into_bytes();
    Ok(Position { placement, halfmoves, fullmoves })
}

/// The placement of the standard initial position.
pub open spec fn initial_placement() -> Seq<u8> {
    bytes_of("rnbqkbnr/pppppppp/8/8/8/8/PPPPPPPP/RNBQKBNR w KQkq -")
}

/// The standard initial position.
pub open spec fn initial_position() -> PositionView {
    PositionView { placement: initial_placement(), halfmoves: 0, fullmoves: 1 }
}

/// Whether two positions are the same position: the same pieces on the same
/// squares, the same side to move, the same castling rights and en-passant
/// square. The move counters play no part.
pub open spec fn same_position(a: PositionView, b: PositionView) -> bool {
    a.placement == b.placement
}

impl Position {
    /// The position every game of standard chess starts from.
    pub fn initial() -> (r: Position)
        ensures
            r@ == initial_position(),
    {
        Position {
            placement: text_bytes("rnbqkbnr/pppppppp/8/8/8/8/PPPPPPPP/RNBQKBNR w KQkq -"),
            halfmoves: 0,
            fullmoves: 1,
        }
    }

    /// A copy of the position.
    pub fn copy(&self) -> (r: Position)
        ensures
            r@ == self@,
    {
        Position {
            placement: crate::text::copy_bytes(self.placement.as_slice()),
            halfmoves: self.halfmoves,
            fullmoves: self.fullmoves,
        }
    }
}

/// Reads a FEN record.
///
/// Fails with `Malformed` where the text is no FEN record and with `Illegal`
/// where the record describes no playable position.
pub fn parse_fen(text: &[u8]) -> (r: Result<Position, FenError>)
    ensures
        match r {
            Ok(pos) => fen_reading(text@) == Ok::<PositionView, FenError>(pos@),
            Err(e) => fen_reading(text@) == Err::<PositionView, FenError>(e),
        },
{
    engine_read_fen(text)
}

/// The legal moves of a position, each with the position it leads to.
pub fn legal_moves(pos: &Position) -> (r: Option<Vec<Successor>>)
    ensures
        match r {
            Some(list) => successors_of(pos@) == Some(successor_views(list@)),
            None => successors_of(pos@) is None,
        },
{
    engine_successors(pos)
}

/// Compares two positions, ignoring the move counters.
pub fn positions_equal(a: &Position, b: &Position) -> (r: bool)
    ensures
        r == same_position(a@, b@),
{
    bytes_eq(a.placement.as_slice(), b.placement.as_slice())
}

} // verus!
