//! The archive: players, events and sites, each under a unique name, and
//! the games that refer to them.
//!
//! A game is committed whole: the names it mentions are looked up, entered
//! where they are new, and the game is stored with their identities; or
//! nothing is stored at all.

use vstd::prelude::*;

use crate::codec::{encode_line, encode_moves, lemma_replay_of_encoded, replay, texts, CodecError};
use crate::engine::{initial_position, Position};
use crate::game::{copy_text, Event, Game, GameView, Player, Site, TempGame, TempGameView};
use crate::names::{id_of, lemma_with_name, table_wf, with_name, NameTable, MAX_ROWS};

verus! {

/// The identity of the player that stands for "no name given".
pub const UNNAMED_PLAYER: i32 = 0;

/// The identity of the event, and of the site, that stands for
/// "unspecified": the row with the empty name, the first of a new archive.
pub const UNSPECIFIED: i32 = 1;

/// An archive of games.
pub struct Store {
    players: NameTable,
    events: NameTable,
    sites: NameTable,
    games: Vec<Game>,
}

/// What a [`Store`] stands for in contracts: the names of its players,
/// events and sites, each at the place of its identity less one, and its
/// games in the order they were committed.
pub struct StoreView {
    pub players: Seq<Seq<char>>,
    pub events: Seq<Seq<char>>,
    pub sites: Seq<Seq<char>>,
    pub games: Seq<GameView>,
}

/// Why a game was not committed.
#[derive(Clone, Copy, Debug, PartialEq, Eq, Structural)]
pub enum CommitError {
    /// The moves of the game could not be packed.
    Codec(CodecError),
    /// The archive has no room for another game and the names it may bring.
    Full,
}

/// The views of a list of games, in order.
pub open spec fn game_views(games: Seq<Game>) -> Seq<GameView> {
    Seq::new(games.len(), |i: int| games[i]@)
}

/// The identity of the player of that name: the unnamed player where no name
/// is given.
pub open spec fn player_ref(players: Seq<Seq<char>>, name: Option<Seq<char>>) -> int {
    match name {
        Some(n) => id_of(players, n),
        None => UNNAMED_PLAYER as int,
    }
}

/// The identity of the event or site of that name: the unspecified one
/// where no name is given.
pub open spec fn label_ref(names: Seq<Seq<char>>, name: Option<Seq<char>>) -> int {
    match name {
        Some(n) => id_of(names, n),
        None => UNSPECIFIED as int,
    }
}

/// A table after a name was looked up, where one was given.
pub open spec fn with_optional(names: Seq<Seq<char>>, name: Option<Seq<char>>) -> Seq<Seq<char>> {
    match name {
        Some(n) => with_name(names, n),
        None => names,
    }
}

/// Whether the game at place `i` is a well-formed row: it has the identity
/// of its place, refers to rows that exist, and its move buffer replays
/// from the standard initial position as a game of `ply_count` moves.
pub open spec fn game_row_wf(store: StoreView, i: int) -> bool {
    let g = store.games[i];
    &&& g.id == i + 1
    &&& 0 <= g.white_id <= store.players.len()
    &&& 0 <= g.black_id <= store.players.len()
    &&& 1 <= g.event_id <= store.events.len()
    &&& 1 <= g.site_id <= store.sites.len()
    &&& replays_as(g.moves2, g.ply_count)
}

/// Whether `store` is a well-formed archive: names are unique, the first
/// event and the first site are the unspecified ones, and every game is a
/// well-formed row.
pub open spec fn store_wf(store: StoreView) -> bool {
    &&& table_wf(store.players)
    &&& table_wf(store.events)
    &&& table_wf(store.sites)
    &&& store.events.len() >= 1
    &&& store.events[0] == Seq::<char>::empty()
    &&& store.sites.len() >= 1
    &&& store.sites[0] == Seq::<char>::empty()
    &&& store.games.len() <= MAX_ROWS
    &&& forall|i: int| 0 <= i < store.games.len() ==> game_row_wf(store, i)
}

/// A new archive: the unspecified event and site, and nothing else.
pub open spec fn empty_store() -> StoreView {
    StoreView {
        players: Seq::empty(),
        events: seq![Seq::<char>::empty()],
        sites: seq![Seq::<char>::empty()],
        games: Seq::empty(),
    }
}

/// Whether `store` has room for one more game and the rows it may bring.
pub open spec fn has_room(store: StoreView) -> bool {
    &&& store.players.len() + 2 <= MAX_ROWS
    &&& store.events.len() + 1 <= MAX_ROWS
    &&& store.sites.len() + 1 <= MAX_ROWS
    &&& store.games.len() + 1 <= MAX_ROWS
}

/// The row under which `game` is stored in `store`, its moves packed as
/// `moves2`.
pub open spec fn game_row(store: StoreView, game: TempGameView, moves2: Seq<u8>) -> GameView {
    GameView {
        id: (store.games.len() + 1) as int,
        event_id: label_ref(store.events, game.event_name),
        site_id: label_ref(store.sites, game.site_name),
        date: game.date,
        round: game.round,
        white_id: player_ref(store.players, game.white_name),
        white_elo: game.white_elo,
        black_id: player_ref(with_optional(store.players, game.white_name), game.black_name),
        black_elo: game.black_elo,
        result: game.result,
        time_control: game.time_control,
        eco: game.eco,
        ply_count: game.moves.len(),
        fen: game.fen,
        moves2,
    }
}

/// The archive after `game` was committed to `store`, its moves packed as
/// `moves2`.
pub open spec fn committed(store: StoreView, game: TempGameView, moves2: Seq<u8>) -> StoreView {
    StoreView {
        players: with_optional(with_optional(store.players, game.white_name), game.black_name),
        events: with_optional(store.events, game.event_name),
        sites: with_optional(store.sites, game.site_name),
        games: store.games.push(game_row(store, game, moves2)),
    }
}

/// Whether `moves2` replays, from the standard initial position, as a game
/// of `plies` moves.
pub open spec fn replays_as(moves2: Seq<u8>, plies: nat) -> bool {
    match replay(initial_position(), moves2) {
        Ok(steps) => steps.len() == plies,
        Err(_) => false,
    }
}

/// Committing a game to a well-formed archive with room leaves a well-formed
/// archive, provided the buffer replays as a game of as many moves as the
/// game holds.
pub proof fn lemma_committed_wf(store: StoreView, game: TempGameView, moves2: Seq<u8>)
    requires
        store_wf(store),
        has_room(store),
        replays_as(moves2, game.moves.len()),
    ensures
        store_wf(committed(store, game, moves2)),
{
    let after = committed(store, game, moves2);
    let players1 = with_optional(store.players, game.white_name);
    lemma_optional(store.players, game.white_name);
    lemma_optional(players1, game.black_name);
    lemma_optional(store.events, game.event_name);
    lemma_optional(store.sites, game.site_name);
    assert forall|i: int| 0 <= i < after.games.len() implies game_row_wf(after, i) by {
        if i < store.games.len() {
            assert(game_row_wf(store, i));
            assert(after.games[i] == store.games[i]);
        }
    }
}

/// What looking up an optional name does to a table.
proof fn lemma_optional(names: Seq<Seq<char>>, name: Option<Seq<char>>)
    requires
        crate::names::distinct(names),
    ensures
        crate::names::distinct(with_optional(names, name)),
        names.len() <= with_optional(names, name).len() <= names.len() + 1,
        forall|i: int| 0 <= i < names.len() ==> with_optional(names, name)[i] == names[i],
        name is Some ==> 1 <= id_of(names, name.unwrap()) <= with_optional(names, name).len(),
{
    if name is Some {
        lemma_with_name(names, name.unwrap());
    }
}

impl View for Store {
    type V = StoreView;

    closed spec fn view(&self) -> StoreView {
        StoreView {
            players: self.players@,
            events: self.events@,
            sites: self.sites@,
            games: game_views(self.games@),
        }
    }
}

impl Store {
    /// Whether the archive is well formed.
    pub open spec fn wf(&self) -> bool {
        store_wf(self@)
    }

    /// A new archive.
    pub fn new() -> (r: Store)
        ensures
            r@ == empty_store(),
            r.wf(),
    {
        let r = Store {
            players: NameTable::new(),
            events: NameTable::with_sentinel(),
            sites: NameTable::with_sentinel(),
            games: Vec::new(),
        };
        assert(r@.games =~= Seq::<GameView>::empty());
        r
    }

    /// The number of games.
    pub fn game_count(&self) -> (r: usize)
        ensures
            r == self@.games.len(),
    {
        self.games.len()
    }

    /// The number of players that have a name.
    pub fn player_count(&self) -> (r: usize)
        ensures
            r == self@.players.len(),
    {
        self.players.len()
    }

    /// The number of events, the unspecified one among them.
    pub fn event_count(&self) -> (r: usize)
        ensures
            r == self@.events.len(),
    {
        self.events.len()
    }

    /// The number of sites, the unspecified one among them.
    pub fn site_count(&self) -> (r: usize)
        ensures
            r == self@.sites.len(),
    {
        self.sites.len()
    }

    /// The game with identity `id`, if there is one.
    pub fn game(&self, id: i32) -> (r: Option<&Game>)
        ensures
            match r {
                Some(game) => 1 <= id <= self@.games.len() && game@ == self@.games[id - 1],
                None => !(1 <= id <= self@.games.len()),
            },
    {
        if id >= 1 && (id as usize) <= self.games.len() {
            let game = &self.games[(id - 1) as usize];
            assert(self@.games[id - 1] == game@);
            Some(game)
        } else {
            None
        }
    }

    /// The player with identity `id`, if there is one. The unnamed player
    /// has no name; every other player has the name of its row.
    pub fn player(&self, id: i32) -> (r: Option<Player>)
        ensures
            match r {
                Some(player) => player.id == id && player.elo is None && (if id
                    == UNNAMED_PLAYER {
                    player.name is None
                } else {
                    1 <= id <= self@.players.len() && crate::game::text_of(player.name) == Some(
                        self@.players[id - 1],
                    )
                }),
                None => id != UNNAMED_PLAYER && !(1 <= id <= self@.players.len()),
            },
    {
        if id == UNNAMED_PLAYER {
            Some(Player { id, name: None, elo: None })
        } else {
            match self.players.name(id) {
                Some(name) => Some(Player { id, name: Some(name.clone()), elo: None }),
                None => None,
            }
        }
    }

    /// The event with identity `id`, if there is one.
    pub fn event(&self, id: i32) -> (r: Option<Event>)
        ensures
            match r {
                Some(event) => 1 <= id <= self@.events.len() && event.id == id
                    && crate::game::text_of(event.name) == Some(self@.events[id - 1]),
                None => !(1 <= id <= self@.events.len()),
            },
    {
        match self.events.name(id) {
            Some(name) => Some(Event { id, name: Some(name.clone()) }),
            None => None,
        }
    }

    /// The site with identity `id`, if there is one.
    pub fn site(&self, id: i32) -> (r: Option<Site>)
        ensures
            match r {
                Some(site) => 1 <= id <= self@.sites.len() && site.id == id
                    && crate::game::text_of(site.name) == Some(self@.sites[id - 1]),
                None => !(1 <= id <= self@.sites.len()),
            },
    {
        match self.sites.name(id) {
            Some(name) => Some(Site { id, name: Some(name.clone()) }),
            None => None,
        }
    }

    /// The move buffers of all games, in the order of the games: what a
    /// position search runs over.
    pub fn move_buffers(&self) -> (r: Vec<Vec<u8>>)
        ensures
            texts(r@) == Seq::new(self@.games.len(), |i: int| self@.games[i].moves2),
    {
        let mut out: Vec<Vec<u8>> = Vec::new();
        let mut i: usize = 0;
        while i < self.games.len()
            invariant
                i <= self.games@.len(),
                out@.len() == i,
                forall|j: int| 0 <= j < i ==> out@[j]@ == self.games@[j].moves2@,
            decreases self.games@.len() - i,
        {
            out.push(crate::text::copy_bytes(self.games[i].moves2.as_slice()));
            i += 1;
        }
        assert(texts(out@) =~= Seq::new(self@.games.len(), |i: int| self@.games[i].moves2));
        out
    }

    /// Commits a game: packs its moves, looks up or enters the players, the
    /// event and the site it names, and stores the game with their
    /// identities. Returns the identity of the game.
    ///
    /// A game whose moves cannot be packed is not committed, nor is any game
    /// once the archive is out of room; the archive is then left as it was.
    pub fn commit(&mut self, game: &TempGame) -> (r: Result<i32, CommitError>)
        requires
            old(self).wf(),
        ensures
            final(self).wf(),
            match r {
                Ok(id) => {
                    &&& encode_line(initial_position(), game@.moves) is Ok
                    &&& has_room(old(self)@)
                    &&& final(self)@ == committed(
                        old(self)@,
                        game@,
                        encode_line(initial_position(), game@.moves).unwrap(),
                    )
                    &&& id == old(self)@.games.len() + 1
                },
                Err(CommitError::Codec(e)) => {
                    &&& encode_line(initial_position(), game@.moves) == Err::<Seq<u8>, CodecError>(
                        e,
                    )
                    &&& final(self)@ == old(self)@
                },
                Err(CommitError::Full) => {
                    &&& encode_line(initial_position(), game@.moves) is Ok
                    &&& !has_room(old(self)@)
                    &&& final(self)@ == old(self)@
                },
            },
    {
        let start = Position::initial();
        let moves2 = match encode_moves(&game.moves, &start) {
            Ok(bytes) => bytes,
            Err(e) => { return Err(CommitError::Codec(e)); },
        };
        proof {
            lemma_replay_of_encoded(initial_position(), game@.moves);
        }
        match self.insert_game(game, moves2) {
            Some(id) => Ok(id),
            None => Err(CommitError::Full),
        }
    }

    /// Stores a game whose moves are packed already: looks up or enters the
    /// players, the event and the site it names, and stores the game with
    /// their identities and with `moves2` as its move buffer. Returns the
    /// identity of the game.
    ///
    /// The buffer has to replay, from the standard initial position, as a
    /// game of as many moves as `game` holds. Once the archive is out of
    /// room nothing is stored and the result is `None`.
    pub fn insert_game(&mut self, game: &TempGame, moves2: Vec<u8>) -> (r: Option<i32>)
        requires
            old(self).wf(),
            replays_as(moves2@, game@.moves.len()),
        ensures
            final(self).wf(),
            match r {
                Some(id) => {
                    &&& has_room(old(self)@)
                    &&& final(self)@ == committed(old(self)@, game@, moves2@)
                    &&& id == old(self)@.games.len() + 1
                },
                None => !has_room(old(self)@) && final(self)@ == old(self)@,
            },
    {
        if self.players.len() > MAX_ROWS - 2 || self.events.len() > MAX_ROWS - 1
            || self.sites.len() > MAX_ROWS - 1 || self.games.len() > MAX_ROWS - 1 {
            return None;
        }
        let ghost before = self@;
        proof {
            lemma_committed_wf(before, game@, moves2@);
            lemma_optional(before.players, game@.white_name);
        }
        let white_id = self.enter_player(&game.white_name);
        let black_id = self.enter_player(&game.black_name);
        let event_id = match &game.event_name {
            Some(name) => match self.events.get_or_create(name) {
                Some(id) => id,
                None => vstd::pervasive::unreached(),
            },
            None => UNSPECIFIED,
        };
        let site_id = match &game.site_name {
            Some(name) => match self.sites.get_or_create(name) {
                Some(id) => id,
                None => vstd::pervasive::unreached(),
            },
            None => UNSPECIFIED,
        };
        let id = (self.games.len() + 1) as i32;
        let row = Game {
            id,
            event_id,
            site_id,
            date: copy_text(&game.date),
            round: copy_text(&game.round),
            white_id,
            white_elo: game.white_elo,
            black_id,
            black_elo: game.black_elo,
            result: copy_text(&game.result),
            time_control: copy_text(&game.time_control),
            eco: copy_text(&game.eco),
            ply_count: game.moves.len(),
            fen: copy_text(&game.fen),
            moves2,
        };
        assert(row@ == game_row(before, game@, moves2@));
        let ghost games_before = self.games@;
        self.games.push(row);
        assert(game_views(self.games@) =~= game_views(games_before).push(row@));
        Some(id)
    }

    /// Looks up or enters a player, where a name is given.
    fn enter_player(&mut self, name: &Option<String>) -> (id: i32)
        requires
            table_wf(old(self)@.players),
            old(self)@.players.len() < MAX_ROWS,
        ensures
            id == player_ref(old(self)@.players, text_of_ref(name)),
            final(self)@.players == with_optional(old(self)@.players, text_of_ref(name)),
            final(self)@.events == old(self)@.events,
            final(self)@.sites == old(self)@.sites,
            final(self)@.games == old(self)@.games,
            table_wf(final(self)@.players),
    {
        match name {
            Some(name) => match self.players.get_or_create(name) {
                Some(id) => id,
                None => vstd::pervasive::unreached(),
            },
            None => UNNAMED_PLAYER,
        }
    }
}

/// The text of an optional string behind a reference.
pub open spec fn text_of_ref(text: &Option<String>) -> Option<Seq<char>> {
    crate::game::text_of(*text)
}

/// The name that a game gives for the player of one side.
pub open spec fn side_name(game: TempGameView, white: bool) -> Option<Seq<char>> {
    if white {
        game.white_name
    } else {
        game.black_name
    }
}

/// The identity under which a stored game refers to the player of one side.
pub open spec fn side_id(row: GameView, white: bool) -> int {
    if white {
        row.white_id
    } else {
        row.black_id
    }
}

/// No player twice: two games that name the same player, committed one
/// after the other, refer to one and the same row, and no other row of the
/// archive carries that name.
pub proof fn law_same_name_one_row(
    store: StoreView,
    first: TempGameView,
    first_moves: Seq<u8>,
    first_white: bool,
    second: TempGameView,
    second_moves: Seq<u8>,
    second_white: bool,
)
    requires
        store_wf(store),
        side_name(first, first_white) is Some,
        side_name(second, second_white) == side_name(first, first_white),
    ensures
        ({
            let name = side_name(first, first_white).unwrap();
            let after = committed(committed(store, first, first_moves), second, second_moves);
            let n = store.games.len() as int;
            let id = side_id(after.games[n], first_white);
            &&& after.games.len() == n + 2
            &&& side_id(after.games[n + 1], second_white) == id
            &&& 1 <= id <= after.players.len()
            &&& forall|i: int|
                0 <= i < after.players.len() ==> (#[trigger] after.players[i] == name <==> i == id
                    - 1)
        }),
{
    let name = side_name(first, first_white).unwrap();
    let middle = committed(store, first, first_moves);
    let after = committed(middle, second, second_moves);
    let n = store.games.len() as int;
    lemma_optional(store.players, first.white_name);
    lemma_optional(with_optional(store.players, first.white_name), first.black_name);
    lemma_optional(middle.players, second.white_name);
    lemma_optional(with_optional(middle.players, second.white_name), second.black_name);
    lemma_side_id(store, first, first_moves, first_white);
    assert(crate::names::distinct(middle.players));
    lemma_side_id(middle, second, second_moves, second_white);
    assert(after.games[n] == game_row(store, first, first_moves));
    assert(after.games[n + 1] == game_row(middle, second, second_moves));
    // the name keeps its place while the second game is committed
    let place = id_of(middle.players, name) - 1;
    assert(middle.players[place] == name) by {
        let at = middle.players.index_of(name);
        assert(middle.players[at] == name);
    }
    assert(after.players[place] == name);
    crate::names::lemma_id_is_place(after.players, name, place);
    assert forall|i: int| 0 <= i < after.players.len() implies (#[trigger] after.players[i] == name
        <==> i == place) by {
        if after.players[i] == name && i != place {
            if i < place {
                assert(after.players[i] != after.players[place]);
            } else {
                assert(after.players[place] != after.players[i]);
            }
        }
    }
}

/// The identity under which a game, once committed, refers to the player
/// of one side is the identity the name has in the archive after the
/// commit.
proof fn lemma_side_id(store: StoreView, game: TempGameView, moves2: Seq<u8>, white: bool)
    requires
        crate::names::distinct(store.players),
        side_name(game, white) is Some,
    ensures
        committed(store, game, moves2).players.contains(side_name(game, white).unwrap()),
        side_id(game_row(store, game, moves2), white) == id_of(
            committed(store, game, moves2).players,
            side_name(game, white).unwrap(),
        ),
{
    let name = side_name(game, white).unwrap();
    let players1 = with_optional(store.players, game.white_name);
    let players2 = with_optional(players1, game.black_name);
    lemma_optional(store.players, game.white_name);
    lemma_optional(players1, game.black_name);
    if white {
        lemma_with_name(store.players, name);
        assert(players1[id_of(store.players, name) - 1] == name);
        assert(players2[id_of(store.players, name) - 1] == name);
        crate::names::lemma_id_is_place(players2, name, id_of(store.players, name) - 1);
    } else {
        lemma_with_name(players1, name);
        crate::names::lemma_id_is_place(players2, name, id_of(players1, name) - 1);
    }
}

/// The unspecified event: a game that names no event is stored under the
/// first row, whose name is empty, and brings no event row of its own; a
/// game that names an event by a name that is not empty is stored under
/// another row. The same holds of sites.
pub proof fn law_unspecified_is_sentinel(store: StoreView, game: TempGameView, moves2: Seq<u8>)
    requires
        store_wf(store),
    ensures
        ({
            let after = committed(store, game, moves2);
            let row = after.games[store.games.len() as int];
            &&& after.events[0] == Seq::<char>::empty()
            &&& after.sites[0] == Seq::<char>::empty()
            &&& game.event_name is None ==> row.event_id == UNSPECIFIED && after.events
                == store.events
            &&& game.site_name is None ==> row.site_id == UNSPECIFIED && after.sites == store.sites
            &&& (game.event_name is Some && game.event_name.unwrap().len() > 0) ==> row.event_id
                != UNSPECIFIED && after.events[row.event_id - 1] == game.event_name.unwrap()
            &&& (game.site_name is Some && game.site_name.unwrap().len() > 0) ==> row.site_id
                != UNSPECIFIED && after.sites[row.site_id - 1] == game.site_name.unwrap()
        }),
{
    let after = committed(store, game, moves2);
    lemma_optional(store.events, game.event_name);
    lemma_optional(store.sites, game.site_name);
    if game.event_name is Some {
        let name = game.event_name.unwrap();
        lemma_with_name(store.events, name);
        if name.len() > 0 {
            assert(store.events[0] != name);
        }
    }
    if game.site_name is Some {
        let name = game.site_name.unwrap();
        lemma_with_name(store.sites, name);
        if name.len() > 0 {
            assert(store.sites[0] != name);
        }
    }
}

} // verus!
