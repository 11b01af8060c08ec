//! The records of an archive: a game as it is gathered from its source, and
//! the rows that are stored.

use vstd::prelude::*;

use crate::codec::texts;

verus! {

/// The text of an optional string.
pub open spec fn text_of(text: Option<String>) -> Option<Seq<char>> {
    match text {
        Some(s) => Some(s@),
        None => None,
    }
}

/// A copy of an optional string.
pub fn copy_text(text: &Option<String>) -> (r: Option<String>)
    ensures
        text_of(r) == text_of(*text),
{
    match text {
        Some(s) => Some(s.clone()),
        None => None,
    }
}

/// A player as a source names them, before they have a row.
#[derive(Clone, Debug)]
pub struct TempPlayer {
    pub id: usize,
    pub name: Option<String>,
    pub rating: Option<i32>,
}

impl Default for TempPlayer {
    fn default() -> (r: TempPlayer)
        ensures
            r.id == 0,
            r.name is None,
            r.rating is None,
    {
        TempPlayer { id: 0, name: None, rating: None }
    }
}

/// A game as it is gathered from its source: what the headers said, and the
/// moves accepted so far, each in the notation of the rules engine.
#[derive(Clone, Debug)]
pub struct TempGame {
    pub event_name: Option<String>,
    pub site_name: Option<String>,
    pub date: Option<String>,
    pub round: Option<String>,
    pub white_name: Option<String>,
    pub white_elo: Option<i32>,
    pub black_name: Option<String>,
    pub black_elo: Option<i32>,
    pub result: Option<String>,
    pub time_control: Option<String>,
    pub eco: Option<String>,
    pub fen: Option<String>,
    pub moves: Vec<Vec<u8>>,
}

/// What a [`TempGame`] stands for in contracts.
pub struct TempGameView {
    pub event_name: Option<Seq<char>>,
    pub site_name: Option<Seq<char>>,
    pub date: Option<Seq<char>>,
    pub round: Option<Seq<char>>,
    pub white_name: Option<Seq<char>>,
    pub white_elo: Option<i32>,
    pub black_name: Option<Seq<char>>,
    pub black_elo: Option<i32>,
    pub result: Option<Seq<char>>,
    pub time_control: Option<Seq<char>>,
    pub eco: Option<Seq<char>>,
    pub fen: Option<Seq<char>>,
    pub moves: Seq<Seq<u8>>,
}

impl View for TempGame {
    type V = TempGameView;

    open spec fn view(&self) -> TempGameView {
        TempGameView {
            event_name: text_of(self.event_name),
            site_name: text_of(self.site_name),
            date: text_of(self.date),
            round: text_of(self.round),
            white_name: text_of(self.white_name),
            white_elo: self.white_elo,
            black_name: text_of(self.black_name),
            black_elo: self.black_elo,
            result: text_of(self.result),
            time_control: text_of(self.time_control),
            eco: text_of(self.eco),
            fen: text_of(self.fen),
            moves: texts(self.moves@),
        }
    }
}

/// A game of which nothing is known yet.
pub open spec fn blank_game() -> TempGameView {
    TempGameView {
        event_name: None,
        site_name: None,
        date: None,
        round: None,
        white_name: None,
        white_elo: None,
        black_name: None,
        black_elo: None,
        result: None,
        time_control: None,
        eco: None,
        fen: None,
        moves: Seq::empty(),
    }
}

impl TempGame {
    /// A game of which nothing is known yet.
    pub fn new() -> (r: TempGame)
        ensures
            r@ == blank_game(),
    {
        let r = TempGame {
            event_name: None,
            site_name: None,
            date: None,
            round: None,
            white_name: None,
            white_elo: None,
            black_name: None,
            black_elo: None,
            result: None,
            time_control: None,
            eco: None,
            fen: None,
            moves: Vec::new(),
        };
        assert(r@.moves =~= Seq::<Seq<u8>>::empty());
        r
    }
}

impl Default for TempGame {
    fn default() -> (r: TempGame)
        ensures
            r@ == blank_game(),
    {
        TempGame::new()
    }
}

/// A player.
#[derive(Clone, Debug)]
pub struct Player {
    pub id: i32,
    pub name: Option<String>,
    pub elo: Option<i32>,
}

/// An event.
#[derive(Clone, Debug)]
pub struct Event {
    pub id: i32,
    pub name: Option<String>,
}

/// A site.
#[derive(Clone, Debug)]
pub struct Site {
    pub id: i32,
    pub name: Option<String>,
}

/// A stored game. Players, event and site are referred to by identity; the
/// moves are held packed.
#[derive(Clone, Debug)]
pub struct Game {
    pub id: i32,
    pub event_id: i32,
    pub site_id: i32,
    pub date: Option<String>,
    pub round: Option<String>,
    pub white_id: i32,
    pub white_elo: Option<i32>,
    pub black_id: i32,
    pub black_elo: Option<i32>,
    pub result: Option<String>,
    pub time_control: Option<String>,
    pub eco: Option<String>,
    pub ply_count: usize,
    pub fen: Option<String>,
    pub moves2: Vec<u8>,
}

/// What a [`Game`] stands for in contracts.
pub struct GameView {
    pub id: int,
    pub event_id: int,
    pub site_id: int,
    pub date: Option<Seq<char>>,
    pub round: Option<Seq<char>>,
    pub white_id: int,
    pub white_elo: Option<i32>,
    pub black_id: int,
    pub black_elo: Option<i32>,
    pub result: Option<Seq<char>>,
    pub time_control: Option<Seq<char>>,
    pub eco: Option<Seq<char>>,
    pub ply_count: nat,
    pub fen: Option<Seq<char>>,
    pub moves2: Seq<u8>,
}

impl View for Game {
    type V = GameView;

    open spec fn view(&self) -> GameView {
        GameView {
            id: self.id as int,
            event_id: self.event_id as int,
            site_id: self.site_id as int,
            date: text_of(self.date),
            round: text_of(self.round),
            white_id: self.white_id as int,
            white_elo: self.white_elo,
            black_id: self.black_id as int,
            black_elo: self.black_elo,
            result: text_of(self.result),
            time_control: text_of(self.time_control),
            eco: text_of(self.eco),
            ply_count: self.ply_count as nat,
            fen: text_of(self.fen),
            moves2: self.moves2@,
        }
    }
}

} // verus!
