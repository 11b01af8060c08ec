//! What an archive says of itself: the counts that are kept beside the
//! games, the description of an archive on disk, and the record of a
//! player's results.

use vstd::prelude::*;
use vstd::string::{StringExecFns, StringSliceAdditionalSpecFns};

use crate::decimal::{count_of, decimal, decimal_text, parse_count};
use crate::store::Store;
use crate::text::same_text;

verus! {

/// The counts of an archive and its title, as they are kept beside the
/// games. They are taken once, when an import is complete, and are not
/// kept up afterwards.
#[derive(Clone, Debug)]
pub struct Info {
    pub title: String,
    pub game_count: usize,
    pub player_count: usize,
    pub event_count: usize,
    pub site_count: usize,
}

/// Takes the counts of an archive. The title is `Untitled` until the
/// archive is renamed.
pub fn take_info(store: &Store) -> (r: Info)
    ensures
        r.title@ == "Untitled"@,
        r.game_count == store@.games.len(),
        r.player_count == store@.players.len(),
        r.event_count == store@.events.len(),
        r.site_count == store@.sites.len(),
{
    Info {
        title: String::from_str("Untitled"),
        game_count: store.game_count(),
        player_count: store.player_count(),
        event_count: store.event_count(),
        site_count: store.site_count(),
    }
}

impl Info {
    /// Gives the archive another title. The counts stay as they are.
    pub fn rename(&mut self, title: String)
        ensures
            final(self).title == title,
            final(self).game_count == old(self).game_count,
            final(self).player_count == old(self).player_count,
            final(self).event_count == old(self).event_count,
            final(self).site_count == old(self).site_count,
    {
        self.title = title;
    }

    /// The rows under which the counts and the title are kept: a name and
    /// a value each, the counts in decimal notation.
    pub fn rows(&self) -> (r: Vec<(String, String)>)
        ensures
            r@.len() == 5,
            r@[0].0@ == "GameCount"@ && r@[0].1@ == decimal_text(self.game_count as nat),
            r@[1].0@ == "PlayerCount"@ && r@[1].1@ == decimal_text(self.player_count as nat),
            r@[2].0@ == "EventCount"@ && r@[2].1@ == decimal_text(self.event_count as nat),
            r@[3].0@ == "SiteCount"@ && r@[3].1@ == decimal_text(self.site_count as nat),
            r@[4].0@ == "Title"@ && r@[4].1@ == self.title@,
    {
        let mut rows: Vec<(String, String)> = Vec::new();
        rows.push((String::from_str("GameCount"), decimal(self.game_count as u128)));
        rows.push((String::from_str("PlayerCount"), decimal(self.player_count as u128)));
        rows.push((String::from_str("EventCount"), decimal(self.event_count as u128)));
        rows.push((String::from_str("SiteCount"), decimal(self.site_count as u128)));
        rows.push((String::from_str("Title"), self.title.clone()));
        rows
    }
}

/// The description of an archive on disk.
#[derive(Clone, Debug)]
pub struct DatabaseInfo {
    pub title: String,
    pub description: String,
    pub player_count: usize,
    pub game_count: usize,
    pub storage_size: usize,
}

/// Why an archive on disk cannot be described.
#[derive(Clone, Copy, Debug, PartialEq, Eq, Structural)]
pub enum InfoError {
    /// The number of players kept with the archive is no number.
    PlayerCount,
    /// The number of games kept with the archive is no number.
    GameCount,
}

/// Describes an archive on disk from the counts kept with it, the name of
/// its file and the size of the file.
///
/// Fails where a count is not a number in decimal notation; the number of
/// players is looked at first.
pub fn describe_database(
    player_count: &str,
    game_count: &str,
    filename: String,
    storage_size: usize,
) -> (r: Result<DatabaseInfo, InfoError>)
    ensures
        match r {
            Ok(info) => {
                &&& count_of(player_count.spec_bytes()) == Some(info.player_count)
                &&& count_of(game_count.spec_bytes()) == Some(info.game_count)
                &&& info.title@ == "Untitled"@
                &&& info.description == filename
                &&& info.storage_size == storage_size
            },
            Err(InfoError::PlayerCount) => count_of(player_count.spec_bytes()) is None,
            Err(InfoError::GameCount) => count_of(player_count.spec_bytes()) is Some && count_of(
                game_count.spec_bytes(),
            ) is None,
        },
{
    let players = match parse_count(player_count.as_bytes()) {
        Some(n) => n,
        None => { return Err(InfoError::PlayerCount); },
    };
    let games = match parse_count(game_count.as_bytes()) {
        Some(n) => n,
        None => { return Err(InfoError::GameCount); },
    };
    Ok(
        DatabaseInfo {
            title: String::from_str("Untitled"),
            description: filename,
            player_count: players,
            game_count: games,
            storage_size,
        },
    )
}

/// The record of a player: games that ended `1-0`, `0-1` and `1/2-1/2`.
#[derive(Clone, Copy, Debug, PartialEq, Eq, Structural)]
pub struct PlayerGameInfo {
    pub won: usize,
    pub lost: usize,
    pub draw: usize,
}

/// The text of a result; a game without a result has the empty text.
pub open spec fn result_text(result: Option<String>) -> Seq<char> {
    match result {
        Some(text) => text@,
        None => Seq::empty(),
    }
}

/// The count that `rows` give for the result `result`: that of the last
/// row with this result, and zero where there is none.
pub open spec fn count_for(rows: Seq<(Option<String>, i64)>, result: Seq<char>) -> usize
    decreases rows.len(),
{
    if rows.len() == 0 {
        0
    } else if result_text(rows.last().0) == result {
        rows.last().1 as usize
    } else {
        count_for(rows.drop_last(), result)
    }
}

/// Makes the record of a player from the counts of their games by result.
pub fn tally_results(rows: &Vec<(Option<String>, i64)>) -> (r: PlayerGameInfo)
    ensures
        r.won == count_for(rows@, "1-0"@),
        r.lost == count_for(rows@, "0-1"@),
        r.draw == count_for(rows@, "1/2-1/2"@),
{
    let mut info = PlayerGameInfo { won: 0, lost: 0, draw: 0 };
    let mut i: usize = 0;
    proof {
        reveal_strlit("1-0");
        reveal_strlit("0-1");
        reveal_strlit("1/2-1/2");
        reveal_strlit("");
        assert("1-0"@[0] == '1' && "0-1"@[0] == '0');
        assert("1-0"@.len() == 3 && "0-1"@.len() == 3 && "1/2-1/2"@.len() == 7);
        assert(""@ =~= Seq::<char>::empty());
        assert(rows@.take(0) =~= Seq::<(Option<String>, i64)>::empty());
    }
    while i < rows.len()
        invariant
            i <= rows@.len(),
            info.won == count_for(rows@.take(i as int), "1-0"@),
            info.lost == count_for(rows@.take(i as int), "0-1"@),
            info.draw == count_for(rows@.take(i as int), "1/2-1/2"@),
            "1-0"@ != "0-1"@,
            "1-0"@ != "1/2-1/2"@,
            "0-1"@ != "1/2-1/2"@,
            ""@ == Seq::<char>::empty(),
        decreases rows@.len() - i,
    {
        proof {
            let upto = rows@.take(i + 1);
            assert(upto.drop_last() =~= rows@.take(i as int));
            assert(upto.last() == rows@[i as int]);
        }
        let count = #[verifier::truncate] (rows[i].1 as usize);
        let text: &str = match &rows[i].0 {
            Some(text) => text.as_str(),
            None => "",
        };
        if same_text(text, "1-0") {
            info.won = count;
        } else if same_text(text, "0-1") {
            info.lost = count;
        } else if same_text(text, "1/2-1/2") {
            info.draw = count;
        }
        i += 1;
    }
    proof {
        assert(rows@.take(i as int) =~= rows@);
    }
    info
}

} // verus!
