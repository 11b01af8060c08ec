//! The importer: a game at a time, from the events of a PGN source to a
//! committed game.
//!
//! The source is read elsewhere. What it finds is handed to the importer
//! event by event: the start of a game, each header, the end of the
//! headers, each move, the start of a variation, the end of the game. A
//! game is committed at its end unless something in it had it rejected: a
//! player that is a bot, a starting position other than the standard one,
//! or a move that is not legal where it is played.

use vstd::prelude::*;

use crate::codec::{
    encode_line, legal_line, lemma_legal_line_encodes, lemma_line_extends, line_end, resolution,
    resolve_move,
};
use crate::engine::{initial_position, Position, PositionView};
use crate::game::{blank_game, TempGame, TempGameView};
use crate::headers::{decoded_text, header_text, lossy_text, rating_of, read_i32, utf8_lossy};
use crate::store::{committed, has_room, Store, StoreView};
use crate::text::{bytes_of, is_text};

verus! {

/// Why a game is not to be committed.
#[derive(Clone, Copy, Debug, PartialEq, Eq, Structural)]
pub enum RejectReason {
    /// One of the players carries the title of a bot.
    BotParticipant,
    /// The game starts from another position than the standard one.
    NonStandardStart,
    /// A move of the game is not legal where it is played.
    IllegalMove,
}

/// Where the importer stands with the game it is reading.
#[derive(Clone, Copy, Debug, PartialEq, Eq, Structural)]
pub enum GameState {
    /// Nothing has been found against the game so far.
    Accumulating,
    /// The game is not to be committed; the reason is the first one found.
    Rejected(RejectReason),
}

/// Why an event could not be taken in.
#[derive(Clone, Copy, Debug, PartialEq, Eq, Structural)]
pub enum ImportError {
    /// The rating of White is neither a number nor the placeholder `?`.
    InvalidWhiteElo,
    /// The rating of Black is neither a number nor the placeholder `?`.
    InvalidBlackElo,
    /// The archive has no room for the game.
    StoreFull,
}

/// The state after a reason against the game was found: a game that was
/// rejected before stays rejected for the reason found first.
pub open spec fn rejected(state: GameState, reason: RejectReason) -> GameState {
    match state {
        GameState::Accumulating => GameState::Rejected(reason),
        GameState::Rejected(first) => GameState::Rejected(first),
    }
}

/// The FEN record of the standard initial position, as a header spells it.
pub open spec fn standard_fen() -> Seq<u8> {
    bytes_of("rnbqkbnr/pppppppp/8/8/8/8/PPPPPPPP/RNBQKBNR w KQkq - 0 1")
}

/// What a header does to the game being read and to its state.
///
/// A rating given as `?` is no rating. `Date` and `UTCDate` fill the same
/// field, the later one winning. The title `BOT` has the game rejected. A
/// `FEN` header that spells the standard initial position is dropped; any
/// other has the game rejected. A header of another name changes nothing.
pub open spec fn header_effect(
    game: TempGameView,
    state: GameState,
    key: Seq<u8>,
    value: Seq<u8>,
) -> Result<(TempGameView, GameState), ImportError> {
    if key == bytes_of("White") {
        Ok((TempGameView { white_name: Some(header_text(value)), ..game }, state))
    } else if key == bytes_of("Black") {
        Ok((TempGameView { black_name: Some(header_text(value)), ..game }, state))
    } else if key == bytes_of("WhiteElo") {
        if value == bytes_of("?") {
            Ok((game, state))
        } else {
            match rating_of(value) {
                Some(elo) => Ok((TempGameView { white_elo: Some(elo), ..game }, state)),
                None => Err(ImportError::InvalidWhiteElo),
            }
        }
    } else if key == bytes_of("BlackElo") {
        if value == bytes_of("?") {
            Ok((game, state))
        } else {
            match rating_of(value) {
                Some(elo) => Ok((TempGameView { black_elo: Some(elo), ..game }, state)),
                None => Err(ImportError::InvalidBlackElo),
            }
        }
    } else if key == bytes_of("TimeControl") {
        Ok((TempGameView { time_control: Some(header_text(value)), ..game }, state))
    } else if key == bytes_of("ECO") {
        Ok((TempGameView { eco: Some(header_text(value)), ..game }, state))
    } else if key == bytes_of("Round") {
        Ok((TempGameView { round: Some(header_text(value)), ..game }, state))
    } else if key == bytes_of("Date") || key == bytes_of("UTCDate") {
        Ok((TempGameView { date: Some(lossy_text(value)), ..game }, state))
    } else if key == bytes_of("WhiteTitle") || key == bytes_of("BlackTitle") {
        if value == bytes_of("BOT") {
            Ok((game, rejected(state, RejectReason::BotParticipant)))
        } else {
            Ok((game, state))
        }
    } else if key == bytes_of("Site") {
        Ok((TempGameView { site_name: Some(lossy_text(value)), ..game }, state))
    } else if key == bytes_of("Event") {
        Ok((TempGameView { event_name: Some(lossy_text(value)), ..game }, state))
    } else if key == bytes_of("Result") {
        Ok((TempGameView { result: Some(lossy_text(value)), ..game }, state))
    } else if key == bytes_of("FEN") {
        if value == standard_fen() {
            Ok((TempGameView { fen: None, ..game }, state))
        } else {
            Ok((game, rejected(state, RejectReason::NonStandardStart)))
        }
    } else {
        Ok((game, state))
    }
}

/// The importer: the archive it fills, the game it is reading, the position
/// the game has come to, and whether the game is still to be committed.
pub struct Importer {
    store: Store,
    game: TempGame,
    position: Position,
    state: GameState,
}

/// What an [`Importer`] stands for in contracts.
pub struct ImporterView {
    pub store: StoreView,
    pub game: TempGameView,
    pub position: PositionView,
    pub state: GameState,
}

/// Whether `imp` is a well-formed importer: its archive is well formed, and
/// the moves gathered are a line of legal moves from the standard initial
/// position to the position the importer stands at.
pub open spec fn importer_wf(imp: ImporterView) -> bool {
    &&& crate::store::store_wf(imp.store)
    &&& legal_line(initial_position(), imp.game.moves)
    &&& imp.position == line_end(initial_position(), imp.game.moves)
}

/// The importer at the start of a game.
pub open spec fn after_begin(imp: ImporterView) -> ImporterView {
    ImporterView {
        store: imp.store,
        game: blank_game(),
        position: initial_position(),
        state: GameState::Accumulating,
    }
}

/// The importer after a header, where the header can be taken in.
pub open spec fn after_header(imp: ImporterView, key: Seq<u8>, value: Seq<u8>) -> Result<
    ImporterView,
    ImportError,
> {
    match header_effect(imp.game, imp.state, key, value) {
        Ok((game, state)) => Ok(ImporterView { game, state, ..imp }),
        Err(e) => Err(e),
    }
}

/// The importer after a move. A move that resolves is added to the game, as
/// the rules engine writes it, and played; a move that does not has the
/// game rejected.
pub open spec fn after_san(imp: ImporterView, san: Seq<u8>) -> ImporterView {
    match resolution(imp.position, san) {
        Ok((_, step)) => ImporterView {
            game: TempGameView { moves: imp.game.moves.push(step.san), ..imp.game },
            position: step.position,
            ..imp
        },
        Err(_) => ImporterView { state: rejected(imp.state, RejectReason::IllegalMove), ..imp },
    }
}

/// The archive after the game that `imp` holds was committed to it.
pub open spec fn after_send(imp: ImporterView) -> StoreView {
    committed(imp.store, imp.game, encode_line(initial_position(), imp.game.moves).unwrap())
}

/// The archive after the end of the game: with the game committed where
/// nothing stood against it and there was room, and unchanged otherwise.
pub open spec fn after_end(imp: ImporterView) -> StoreView {
    if imp.state == GameState::Accumulating && has_room(imp.store) {
        after_send(imp)
    } else {
        imp.store
    }
}

impl View for Importer {
    type V = ImporterView;

    closed spec fn view(&self) -> ImporterView {
        ImporterView {
            store: self.store@,
            game: self.game@,
            position: self.position@,
            state: self.state,
        }
    }
}

impl Importer {
    /// Whether the importer is well formed.
    pub open spec fn wf(&self) -> bool {
        importer_wf(self@)
    }

    /// An importer that fills `store`, at the start of a game.
    pub fn new(store: Store) -> (r: Importer)
        requires
            store.wf(),
        ensures
            r.wf(),
            r@ == (ImporterView {
                store: store@,
                game: blank_game(),
                position: initial_position(),
                state: GameState::Accumulating,
            }),
    {
        Importer {
            store,
            game: TempGame::new(),
            position: Position::initial(),
            state: GameState::Accumulating,
        }
    }

    /// The archive.
    pub fn store(&self) -> (r: &Store)
        ensures
            r@ == self@.store,
    {
        &self.store
    }

    /// Gives up the importer for its archive.
    pub fn into_store(self) -> (r: Store)
        ensures
            r@ == self@.store,
    {
        self.store
    }

    /// The game being read.
    pub fn game(&self) -> (r: &TempGame)
        ensures
            r@ == self@.game,
    {
        &self.game
    }

    /// Where the importer stands with the game being read.
    pub fn state(&self) -> (r: GameState)
        ensures
            r == self@.state,
    {
        self.state
    }

    /// The position the game being read has come to.
    pub fn position(&self) -> (r: &Position)
        ensures
            r@ == self@.position,
    {
        &self.position
    }

    /// The start of a game: forgets the game read before.
    pub fn begin_game(&mut self)
        requires
            old(self).wf(),
        ensures
            final(self).wf(),
            final(self)@ == after_begin(old(self)@),
    {
        self.state = GameState::Accumulating;
        self.game = TempGame::new();
        self.position = Position::initial();
    }

    /// A header of the game.
    ///
    /// Fails, and changes nothing, where a rating is neither a number nor
    /// the placeholder `?`.
    pub fn header(&mut self, key: &[u8], value: &[u8]) -> (r: Result<(), ImportError>)
        requires
            old(self).wf(),
        ensures
            final(self).wf(),
            match r {
                Ok(()) => after_header(old(self)@, key@, value@) == Ok::<ImporterView, ImportError>(
                    final(self)@,
                ),
                Err(e) => final(self)@ == old(self)@ && after_header(old(self)@, key@, value@)
                    == Err::<ImporterView, ImportError>(e),
            },
    {
        if is_text(key, "White") {
            self.game.white_name = Some(decoded_text(value));
        } else if is_text(key, "Black") {
            self.game.black_name = Some(decoded_text(value));
        } else if is_text(key, "WhiteElo") {
            if !is_text(value, "?") {
                match read_i32(value) {
                    Some(elo) => { self.game.white_elo = Some(elo); },
                    None => { return Err(ImportError::InvalidWhiteElo); },
                }
            }
        } else if is_text(key, "BlackElo") {
            if !is_text(value, "?") {
                match read_i32(value) {
                    Some(elo) => { self.game.black_elo = Some(elo); },
                    None => { return Err(ImportError::InvalidBlackElo); },
                }
            }
        } else if is_text(key, "TimeControl") {
            self.game.time_control = Some(decoded_text(value));
        } else if is_text(key, "ECO") {
            self.game.eco = Some(decoded_text(value));
        } else if is_text(key, "Round") {
            self.game.round = Some(decoded_text(value));
        } else if is_text(key, "Date") || is_text(key, "UTCDate") {
            self.game.date = Some(utf8_lossy(value));
        } else if is_text(key, "WhiteTitle") || is_text(key, "BlackTitle") {
            if is_text(value, "BOT") {
                self.state = reject(self.state, RejectReason::BotParticipant);
            }
        } else if is_text(key, "Site") {
            self.game.site_name = Some(utf8_lossy(value));
        } else if is_text(key, "Event") {
            self.game.event_name = Some(utf8_lossy(value));
        } else if is_text(key, "Result") {
            self.game.result = Some(utf8_lossy(value));
        } else if is_text(key, "FEN") {
            if is_text(value, "rnbqkbnr/pppppppp/8/8/8/8/PPPPPPPP/RNBQKBNR w KQkq - 0 1") {
                self.game.fen = None;
            } else {
                self.state = reject(self.state, RejectReason::NonStandardStart);
            }
        }
        Ok(())
    }

    /// The end of the headers. Says whether the moves of the game are to be
    /// skipped: they are where the game is rejected already.
    pub fn end_headers(&self) -> (skip: bool)
        ensures
            skip == (self@.state is Rejected),
    {
        match self.state {
            GameState::Accumulating => false,
            GameState::Rejected(_) => true,
        }
    }

    /// A move of the game, in standard algebraic notation.
    pub fn san(&mut self, san: &[u8])
        requires
            old(self).wf(),
        ensures
            final(self).wf(),
            final(self)@ == after_san(old(self)@, san@),
    {
        proof {
            if resolution(self@.position, san@) is Ok {
                lemma_line_extends(initial_position(), self@.game.moves, san@);
            }
        }
        match resolve_move(&self.position, san) {
            Ok((_, step)) => {
                let ghost before = self.game@.moves;
                self.game.moves.push(step.san);
                assert(self.game@.moves =~= before.push(step@.san));
                self.position = step.position;
            },
            Err(_) => {
                self.state = reject(self.state, RejectReason::IllegalMove);
            },
        }
    }

    /// The start of a variation. Says whether the variation is to be
    /// skipped: it always is, only the main line is kept.
    pub fn begin_variation(&self) -> (skip: bool)
        ensures
            skip,
    {
        true
    }

    /// Commits the game being read, whatever its state. Returns the identity
    /// of the game.
    ///
    /// Fails where the archive has no room, and then changes nothing.
    pub fn send(&mut self) -> (r: Result<i32, ImportError>)
        requires
            old(self).wf(),
        ensures
            final(self).wf(),
            final(self)@.game == old(self)@.game,
            final(self)@.position == old(self)@.position,
            final(self)@.state == old(self)@.state,
            match r {
                Ok(id) => has_room(old(self)@.store) && final(self)@.store == after_send(old(self)@)
                    && id == old(self)@.store.games.len() + 1,
                Err(e) => e == ImportError::StoreFull && !has_room(old(self)@.store)
                    && final(self)@.store == old(self)@.store,
            },
    {
        proof {
            lemma_legal_line_encodes(initial_position(), self@.game.moves);
        }
        match self.store.commit(&self.game) {
            Ok(id) => Ok(id),
            Err(_) => Err(ImportError::StoreFull),
        }
    }

    /// The end of the game: commits the game unless it is rejected. Returns
    /// the identity of the game where it was committed.
    ///
    /// Fails where the archive has no room, and then changes nothing.
    pub fn end_game(&mut self) -> (r: Result<Option<i32>, ImportError>)
        requires
            old(self).wf(),
        ensures
            final(self).wf(),
            final(self)@.game == old(self)@.game,
            final(self)@.position == old(self)@.position,
            final(self)@.state == old(self)@.state,
            final(self)@.store == after_end(old(self)@),
            match r {
                Ok(Some(id)) => old(self)@.state == GameState::Accumulating && has_room(
                    old(self)@.store,
                ) && id == old(self)@.store.games.len() + 1,
                Ok(None) => old(self)@.state is Rejected,
                Err(e) => e == ImportError::StoreFull && old(self)@.state
                    == GameState::Accumulating && !has_room(old(self)@.store),
            },
    {
        match self.state {
            GameState::Accumulating => match self.send() {
                Ok(id) => Ok(Some(id)),
                Err(e) => Err(e),
            },
            GameState::Rejected(_) => Ok(None),
        }
    }
}

/// Records a reason against a game.
pub fn reject(state: GameState, reason: RejectReason) -> (r: GameState)
    ensures
        r == rejected(state, reason),
{
    match state {
        GameState::Accumulating => GameState::Rejected(reason),
        GameState::Rejected(first) => GameState::Rejected(first),
    }
}

/// What a source reports of a game between its start and its end.
pub enum GameEvent {
    /// A header with its name and value.
    Header { key: Seq<u8>, value: Seq<u8> },
    /// A move in standard algebraic notation.
    San { san: Seq<u8> },
}

/// The importer after an event, where the event can be taken in.
pub open spec fn after_event(imp: ImporterView, event: GameEvent) -> Result<
    ImporterView,
    ImportError,
> {
    match event {
        GameEvent::Header { key, value } => after_header(imp, key, value),
        GameEvent::San { san } => Ok(after_san(imp, san)),
    }
}

/// The importer after a run of events, where all of them can be taken in.
pub open spec fn after_events(imp: ImporterView, events: Seq<GameEvent>) -> Result<
    ImporterView,
    ImportError,
>
    decreases events.len(),
{
    if events.len() == 0 {
        Ok(imp)
    } else {
        match after_events(imp, events.drop_last()) {
            Ok(mid) => after_event(mid, events.last()),
            Err(e) => Err(e),
        }
    }
}

/// Whether an event speaks against the game: a title that marks a bot, a
/// starting position other than the standard one, or a move that does not
/// resolve in the position `imp` stands at.
pub open spec fn speaks_against(imp: ImporterView, event: GameEvent) -> bool {
    match event {
        GameEvent::Header { key, value } => {
            ||| (key == bytes_of("WhiteTitle") || key == bytes_of("BlackTitle")) && value
                == bytes_of("BOT")
            ||| key == bytes_of("FEN") && value != standard_fen()
        },
        GameEvent::San { san } => resolution(imp.position, san) is Err,
    }
}

/// The lengths of the header names, and the first bytes of the two that
/// have the same length.
proof fn lemma_header_names()
    ensures
        bytes_of("White").len() == 5,
        bytes_of("Black").len() == 5,
        bytes_of("WhiteElo").len() == 8,
        bytes_of("BlackElo").len() == 8,
        bytes_of("TimeControl").len() == 11,
        bytes_of("ECO").len() == 3,
        bytes_of("Round").len() == 5,
        bytes_of("Date").len() == 4,
        bytes_of("UTCDate").len() == 7,
        bytes_of("WhiteTitle").len() == 10,
        bytes_of("BlackTitle").len() == 10,
        bytes_of("Site").len() == 4,
        bytes_of("Event").len() == 5,
        bytes_of("Result").len() == 6,
        bytes_of("FEN").len() == 3,
        bytes_of("ECO")[0] == 69,
        bytes_of("FEN")[0] == 70,
        bytes_of("Date")[0] == 68,
        bytes_of("Site")[0] == 83,
{
    reveal_strlit("White");
    reveal_strlit("Black");
    reveal_strlit("WhiteElo");
    reveal_strlit("BlackElo");
    reveal_strlit("TimeControl");
    reveal_strlit("ECO");
    reveal_strlit("Round");
    reveal_strlit("Date");
    reveal_strlit("UTCDate");
    reveal_strlit("WhiteTitle");
    reveal_strlit("BlackTitle");
    reveal_strlit("Site");
    reveal_strlit("Event");
    reveal_strlit("Result");
    reveal_strlit("FEN");
    vstd::string::is_ascii_spec_bytes("White");
    vstd::string::is_ascii_spec_bytes("Black");
    vstd::string::is_ascii_spec_bytes("WhiteElo");
    vstd::string::is_ascii_spec_bytes("BlackElo");
    vstd::string::is_ascii_spec_bytes("TimeControl");
    vstd::string::is_ascii_spec_bytes("ECO");
    vstd::string::is_ascii_spec_bytes("Round");
    vstd::string::is_ascii_spec_bytes("Date");
    vstd::string::is_ascii_spec_bytes("UTCDate");
    vstd::string::is_ascii_spec_bytes("WhiteTitle");
    vstd::string::is_ascii_spec_bytes("BlackTitle");
    vstd::string::is_ascii_spec_bytes("Site");
    vstd::string::is_ascii_spec_bytes("Event");
    vstd::string::is_ascii_spec_bytes("Result");
    vstd::string::is_ascii_spec_bytes("FEN");
}

/// An event that speaks against the game has the game rejected.
pub proof fn law_culprit_rejects(imp: ImporterView, event: GameEvent)
    requires
        speaks_against(imp, event),
    ensures
        after_event(imp, event) is Ok,
        after_event(imp, event).unwrap().state is Rejected,
{
    lemma_header_names();
}

/// No event between the start and the end of a game touches the archive,
/// and none takes a rejection back.
pub proof fn law_events_keep_store(imp: ImporterView, events: Seq<GameEvent>)
    requires
        after_events(imp, events) is Ok,
    ensures
        after_events(imp, events).unwrap().store == imp.store,
        imp.state is Rejected ==> after_events(imp, events).unwrap().state == imp.state,
    decreases events.len(),
{
    if events.len() > 0 {
        law_events_keep_store(imp, events.drop_last());
    }
}

/// A run of events read in two parts is the run read at once.
proof fn lemma_events_split(imp: ImporterView, first: Seq<GameEvent>, second: Seq<GameEvent>)
    ensures
        after_events(imp, first + second) == match after_events(imp, first) {
            Ok(mid) => after_events(mid, second),
            Err(e) => Err(e),
        },
    decreases second.len(),
{
    if second.len() == 0 {
        assert(first + second =~= first);
    } else {
        assert((first + second).drop_last() =~= first + second.drop_last());
        assert((first + second).last() == second.last());
        lemma_events_split(imp, first, second.drop_last());
    }
}

/// A game that is skipped leaves no trace: where any event of a game speaks
/// against it, the archive after the end of the game is the archive from
/// before its start, whatever else the game holds.
pub proof fn law_skipped_game_leaves_no_rows(
    imp: ImporterView,
    before: Seq<GameEvent>,
    culprit: GameEvent,
    after: Seq<GameEvent>,
)
    requires
        after_events(after_begin(imp), before) is Ok,
        speaks_against(after_events(after_begin(imp), before).unwrap(), culprit),
        after_events(after_begin(imp), before.push(culprit) + after) is Ok,
    ensures
        after_end(after_events(after_begin(imp), before.push(culprit) + after).unwrap())
            == imp.store,
{
    let start = after_begin(imp);
    let mid = after_events(start, before).unwrap();
    law_culprit_rejects(mid, culprit);
    assert(before.push(culprit).drop_last() =~= before);
    let hit = after_events(start, before.push(culprit)).unwrap();
    assert(hit.state is Rejected);
    lemma_events_split(start, before.push(culprit), after);
    law_events_keep_store(start, before.push(culprit));
    law_events_keep_store(hit, after);
}

} // verus!
