//! Games as they are listed: with their players, event and site in full,
//! and with their moves in notation.

use vstd::prelude::*;

use crate::codec::{decode_line, decode_moves_or_empty, texts};
use crate::engine::{fen_reading, initial_position, parse_fen, Position, PositionView};
use crate::game::{Event, Game, GameView, Player, Site};

verus! {

/// A game as it is listed.
#[derive(Clone, Debug)]
pub struct NormalizedGame {
    pub id: i32,
    pub event: Event,
    pub site: Site,
    pub date: Option<String>,
    pub round: Option<String>,
    pub white: Player,
    pub white_elo: Option<i32>,
    pub black: Player,
    pub black_elo: Option<i32>,
    pub result: Option<String>,
    pub time_control: Option<String>,
    pub eco: Option<String>,
    pub ply_count: usize,
    pub fen: Option<String>,
    /// The moves in standard algebraic notation.
    pub moves: Vec<Vec<u8>>,
}

/// The position that a stored game is replayed from: the standard initial
/// position, or the one its `fen` field spells. `None` where that field
/// spells no position.
pub open spec fn start_of(game: GameView) -> Option<PositionView> {
    match game.fen {
        None => Some(initial_position()),
        Some(text) => match fen_reading(vstd::utf8::encode_utf8(text)) {
            Ok(pos) => Some(pos),
            Err(_) => None,
        },
    }
}

/// The moves of a stored game as a listing shows them. A game whose buffer
/// or starting position cannot be read shows no moves.
pub open spec fn display_moves(game: GameView) -> Seq<Seq<u8>> {
    match start_of(game) {
        None => Seq::empty(),
        Some(start) => match decode_line(start, game.moves2) {
            Ok(moves) => moves,
            Err(_) => Seq::empty(),
        },
    }
}

/// Whether `row` lists `game` with these players, this event and this site:
/// every field carried over, and the moves read from the buffer.
pub open spec fn lists(
    row: NormalizedGame,
    game: Game,
    white: Player,
    black: Player,
    event: Event,
    site: Site,
) -> bool {
    &&& row.id == game.id
    &&& row.event == event
    &&& row.site == site
    &&& row.date == game.date
    &&& row.round == game.round
    &&& row.white == white
    &&& row.white_elo == game.white_elo
    &&& row.black == black
    &&& row.black_elo == game.black_elo
    &&& row.result == game.result
    &&& row.time_control == game.time_control
    &&& row.eco == game.eco
    &&& row.ply_count == game.ply_count
    &&& row.fen == game.fen
    &&& texts(row.moves@) == display_moves(game@)
}

/// The position that a stored game is replayed from.
pub fn starting_position(game: &Game) -> (r: Option<Position>)
    ensures
        match r {
            Some(pos) => start_of(game@) == Some(pos@),
            None => start_of(game@) is None,
        },
{
    match &game.fen {
        None => Some(Position::initial()),
        Some(text) => match parse_fen(text.as_str().as_bytes()) {
            Ok(pos) => Some(pos),
            Err(_) => None,
        },
    }
}

/// Lists one game.
pub fn normalize_game(game: Game, white: Player, black: Player, event: Event, site: Site) -> (r:
    NormalizedGame)
    ensures
        lists(r, game, white, black, event, site),
{
    let moves = match starting_position(&game) {
        Some(start) => decode_moves_or_empty(game.moves2.as_slice(), &start),
        None => Vec::new(),
    };
    assert(texts(moves@) =~= display_moves(game@));
    NormalizedGame {
        id: game.id,
        event,
        site,
        date: game.date,
        round: game.round,
        white,
        white_elo: game.white_elo,
        black,
        black_elo: game.black_elo,
        result: game.result,
        time_control: game.time_control,
        eco: game.eco,
        ply_count: game.ply_count,
        fen: game.fen,
        moves,
    }
}

/// Lists games: each with its players, event and site, in the order given.
pub fn normalize_games(games: Vec<(Game, Player, Player, Event, Site)>) -> (r: Vec<NormalizedGame>)
    ensures
        r@.len() == games@.len(),
        forall|i: int|
            0 <= i < games@.len() ==> lists(
                #[trigger] r@[i],
                games@[i].0,
                games@[i].1,
                games@[i].2,
                games@[i].3,
                games@[i].4,
            ),
{
    let mut out: Vec<NormalizedGame> = Vec::new();
    let ghost all = games@;
    for row in it: games
        invariant
            it.seq() == all,
            out@.len() == it.index(),
            forall|i: int|
                0 <= i < out@.len() ==> lists(
                    #[trigger] out@[i],
                    all[i].0,
                    all[i].1,
                    all[i].2,
                    all[i].3,
                    all[i].4,
                ),
    {
        let (game, white, black, event, site) = row;
        out.push(normalize_game(game, white, black, event, site));
    }
    out
}

} // verus!
