//! Listing games and players: what a query asks for, and the plan by which
//! it is answered.
//!
//! The archive on disk is queried elsewhere. Here a query is turned into a
//! plan: the conditions a row has to meet, each on a named column, the
//! order of the rows, and the page to return. The plan says in full what
//! the query means, so that carrying it out needs no further decision.

use vstd::prelude::*;
use vstd::string::StringExecFns;

use crate::game::text_of;

verus! {

/// Which side each of the two players of a query is to have.
#[derive(Clone, Copy, Debug, PartialEq, Eq, Structural)]
pub enum Sides {
    /// The first player has Black, the second White.
    BlackWhite,
    /// The first player has White, the second Black.
    WhiteBlack,
    /// Either player may have either side.
    Any,
}

/// The column that a listing of games is ordered by.
#[derive(Clone, Copy, Debug, PartialEq, Eq, Structural)]
pub enum GameSort {
    Id,
    Date,
    WhiteElo,
    BlackElo,
}

/// The column that a listing of players is ordered by.
#[derive(Clone, Copy, Debug, PartialEq, Eq, Structural)]
pub enum PlayerSort {
    Name,
    Elo,
}

/// Ascending or descending.
#[derive(Clone, Copy, Debug, PartialEq, Eq, Structural)]
pub enum SortDirection {
    Asc,
    Desc,
}

/// What every listing can be asked: a page, an order, and whether to count.
#[derive(Clone, Debug)]
pub struct QueryOptions<SortT> {
    /// Whether the number of matching rows is left uncounted.
    pub skip_count: bool,
    /// The page to return, counted from one.
    pub page: Option<i64>,
    /// The number of rows on a page.
    pub page_size: Option<i64>,
    pub sort: SortT,
    pub direction: SortDirection,
}

/// A query for games.
#[derive(Clone, Debug)]
pub struct GameQuery {
    pub options: QueryOptions<GameSort>,
    pub player1: Option<String>,
    pub player2: Option<String>,
    pub range1: Option<(i32, i32)>,
    pub range2: Option<(i32, i32)>,
    pub sides: Option<Sides>,
    pub outcome: Option<String>,
}

/// A query for players.
#[derive(Clone, Debug)]
pub struct PlayerQuery {
    pub options: QueryOptions<PlayerSort>,
    pub name: Option<String>,
    pub range: Option<(i32, i32)>,
}

/// The answer to a query: the rows of the page, and the number of all rows
/// that match where it was counted.
#[derive(Clone, Debug)]
pub struct QueryResponse<T> {
    pub data: T,
    pub count: Option<i64>,
}

/// Why a query cannot be planned.
#[derive(Clone, Copy, Debug, PartialEq, Eq, Structural)]
pub enum QueryError {
    /// The page lies beyond what can be counted.
    PageOutOfRange,
}

/// The number of rows on a page where the query names none.
pub const DEFAULT_PAGE_SIZE: i64 = 10;

/// The number of rows that lie before page `page`.
pub open spec fn rows_before(page: i64, page_size: Option<i64>) -> int {
    (page - 1) * match page_size {
        Some(size) => size as int,
        None => DEFAULT_PAGE_SIZE as int,
    }
}

/// The rows to pass over for the page of a query, where it names a page.
pub open spec fn offset_of(page: Option<i64>, page_size: Option<i64>) -> Result<
    Option<i64>,
    QueryError,
> {
    match page {
        None => Ok(None),
        Some(p) => if i64::MIN <= rows_before(p, page_size) <= i64::MAX {
            Ok(Some(rows_before(p, page_size) as i64))
        } else {
            Err(QueryError::PageOutOfRange)
        },
    }
}

/// The rows to pass over for the page of a query.
///
/// Fails where their number does not fit an `i64`.
pub fn page_offset(page: Option<i64>, page_size: Option<i64>) -> (r: Result<
    Option<i64>,
    QueryError,
>)
    ensures
        r == offset_of(page, page_size),
{
    match page {
        None => Ok(None),
        Some(p) => {
            let size: i64 = match page_size {
                Some(size) => size,
                None => DEFAULT_PAGE_SIZE,
            };
            assert(-0x4000_0000_0000_0000_8000_0000_0000_0000 <= (p - 1) * size
                <= 0x4000_0000_0000_0000_8000_0000_0000_0000) by (nonlinear_arith)
                requires
                    -0x8000_0000_0000_0001 <= p - 1 <= 0x8000_0000_0000_0001,
                    -0x8000_0000_0000_0000 <= size <= 0x8000_0000_0000_0000,
            ;
            let wide: i128 = (p as i128 - 1) * (size as i128);
            assert(wide == rows_before(p, page_size)) by (nonlinear_arith)
                requires
                    wide == (p as int - 1) * (size as int),
                    rows_before(p, page_size) == (p - 1) * (size as int),
            ;
            if wide < i64::MIN as i128 || wide > i64::MAX as i128 {
                Err(QueryError::PageOutOfRange)
            } else {
                Ok(Some(wide as i64))
            }
        },
    }
}

/// The side of a game that a condition looks at.
#[derive(Clone, Copy, Debug, PartialEq, Eq, Structural)]
pub enum Side {
    White,
    Black,
    /// White or Black: the condition holds where it holds of either.
    Either,
}

/// A condition on the rows of a listing of games.
#[derive(Clone, Debug)]
pub enum GameCondition {
    /// The result of the game is this text.
    Outcome(String),
    /// The player of that side has this name.
    Name(Side, String),
    /// The rating of that side lies in this range, its ends included.
    Elo(Side, i32, i32),
    /// The rating of either side lies in one of these two ranges.
    EloInEither(i32, i32, i32, i32),
}

/// What a [`GameCondition`] stands for in contracts.
pub enum GameConditionView {
    Outcome(Seq<char>),
    Name(Side, Seq<char>),
    Elo(Side, i32, i32),
    EloInEither(i32, i32, i32, i32),
}

impl View for GameCondition {
    type V = GameConditionView;

    open spec fn view(&self) -> GameConditionView {
        match self {
            GameCondition::Outcome(text) => GameConditionView::Outcome(text@),
            GameCondition::Name(side, name) => GameConditionView::Name(*side, name@),
            GameCondition::Elo(side, low, high) => GameConditionView::Elo(*side, *low, *high),
            GameCondition::EloInEither(a, b, c, d) => GameConditionView::EloInEither(
                *a,
                *b,
                *c,
                *d,
            ),
        }
    }
}

/// The plan for a listing of games.
#[derive(Clone, Debug)]
pub struct GamePlan {
    /// The conditions; a row is listed where it meets all of them.
    pub conditions: Vec<GameCondition>,
    pub sort: GameSort,
    pub direction: SortDirection,
    /// The largest number of rows to return, if there is one.
    pub limit: Option<i64>,
    /// The number of rows to pass over, if any are.
    pub offset: Option<i64>,
    /// Whether the rows that meet the conditions are to be counted.
    pub count: bool,
}

/// What a listing of games looks at in a game.
pub struct GameFacts {
    pub white_name: Option<Seq<char>>,
    pub black_name: Option<Seq<char>>,
    pub white_elo: Option<i32>,
    pub black_elo: Option<i32>,
    pub result: Option<Seq<char>>,
}

/// What a [`GameQuery`] stands for in contracts.
pub struct GameQueryView {
    pub player1: Option<Seq<char>>,
    pub player2: Option<Seq<char>>,
    pub range1: Option<(i32, i32)>,
    pub range2: Option<(i32, i32)>,
    pub sides: Option<Sides>,
    pub outcome: Option<Seq<char>>,
}

impl View for GameQuery {
    type V = GameQueryView;

    open spec fn view(&self) -> GameQueryView {
        GameQueryView {
            player1: text_of(self.player1),
            player2: text_of(self.player2),
            range1: self.range1,
            range2: self.range2,
            sides: self.sides,
            outcome: text_of(self.outcome),
        }
    }
}

/// Whether a rating lies in a range. A game without the rating has it in
/// no range.
pub open spec fn within(elo: Option<i32>, low: i32, high: i32) -> bool {
    match elo {
        Some(e) => low <= e <= high,
        None => false,
    }
}

/// Whether a name is borne on a side of a game.
pub open spec fn has_name(facts: GameFacts, side: Side, name: Seq<char>) -> bool {
    match side {
        Side::White => facts.white_name == Some(name),
        Side::Black => facts.black_name == Some(name),
        Side::Either => facts.white_name == Some(name) || facts.black_name == Some(name),
    }
}

/// Whether the rating of a side of a game lies in a range.
pub open spec fn has_elo(facts: GameFacts, side: Side, low: i32, high: i32) -> bool {
    match side {
        Side::White => within(facts.white_elo, low, high),
        Side::Black => within(facts.black_elo, low, high),
        Side::Either => within(facts.white_elo, low, high) || within(facts.black_elo, low, high),
    }
}

/// Whether a game meets a condition.
pub open spec fn meets(facts: GameFacts, condition: GameConditionView) -> bool {
    match condition {
        GameConditionView::Outcome(text) => facts.result == Some(text),
        GameConditionView::Name(side, name) => has_name(facts, side, name),
        GameConditionView::Elo(side, low, high) => has_elo(facts, side, low, high),
        GameConditionView::EloInEither(a, b, c, d) => has_elo(facts, Side::Either, a, b)
            || has_elo(facts, Side::Either, c, d),
    }
}

/// Whether a game meets all of the conditions.
pub open spec fn all_met(facts: GameFacts, conditions: Seq<GameConditionView>) -> bool {
    forall|i: int| 0 <= i < conditions.len() ==> meets(facts, #[trigger] conditions[i])
}

/// The side that the first player of a query is to have, and the side the
/// second is to have.
pub open spec fn sides_of(sides: Sides) -> (Side, Side) {
    match sides {
        Sides::BlackWhite => (Side::Black, Side::White),
        Sides::WhiteBlack => (Side::White, Side::Black),
        Sides::Any => (Side::Either, Side::Either),
    }
}

/// Whether a game is what a query asks for.
///
/// The result has to be the one asked for, where one is. The players and
/// the ranges of rating count only where the query says which sides they
/// are meant for: then each player named has to have the side meant, and
/// each range has to hold the rating of that side. Where either side will
/// do and two ranges are given, it is enough that one rating lies in one
/// of the ranges.
pub open spec fn asked_for(query: GameQueryView, facts: GameFacts) -> bool {
    &&& query.outcome is Some ==> facts.result == query.outcome
    &&& match query.sides {
        None => true,
        Some(sides) => {
            let (first, second) = sides_of(sides);
            &&& query.player1 is Some ==> has_name(facts, first, query.player1.unwrap())
            &&& query.player2 is Some ==> has_name(facts, second, query.player2.unwrap())
            &&& if sides == Sides::Any && query.range1 is Some && query.range2 is Some {
                has_elo(facts, Side::Either, query.range1.unwrap().0, query.range1.unwrap().1)
                    || has_elo(
                    facts,
                    Side::Either,
                    query.range2.unwrap().0,
                    query.range2.unwrap().1,
                )
            } else {
                &&& query.range1 is Some ==> has_elo(
                    facts,
                    first,
                    query.range1.unwrap().0,
                    query.range1.unwrap().1,
                )
                &&& query.range2 is Some ==> has_elo(
                    facts,
                    second,
                    query.range2.unwrap().0,
                    query.range2.unwrap().1,
                )
            }
        },
    }
}

/// The sides that a query means for its first and its second player.
pub fn sides_for(sides: Sides) -> (r: (Side, Side))
    ensures
        r == sides_of(sides),
{
    match sides {
        Sides::BlackWhite => (Side::Black, Side::White),
        Sides::WhiteBlack => (Side::White, Side::Black),
        Sides::Any => (Side::Either, Side::Either),
    }
}

/// Plans a listing of games.
///
/// The plan lists exactly the games the query asks for, in the order it
/// asks for; it returns the page asked for and counts unless the query
/// says not to. Fails where the page lies beyond what can be counted.
pub fn plan_games(query: &GameQuery) -> (r: Result<GamePlan, QueryError>)
    ensures
        match r {
            Ok(plan) => {
                &&& condition_views(plan.conditions@) == conditions_for(query@)
                &&& plan.sort == query.options.sort
                &&& plan.direction == query.options.direction
                &&& plan.limit == query.options.page_size
                &&& offset_of(query.options.page, query.options.page_size) == Ok::<
                    Option<i64>,
                    QueryError,
                >(plan.offset)
                &&& plan.count == !query.options.skip_count
            },
            Err(e) => offset_of(query.options.page, query.options.page_size) == Err::<
                Option<i64>,
                QueryError,
            >(e),
        },
{
    let offset = match page_offset(query.options.page, query.options.page_size) {
        Ok(offset) => offset,
        Err(e) => { return Err(e); },
    };
    let mut conditions: Vec<GameCondition> = Vec::new();
    let ghost mut views: Seq<GameConditionView> = Seq::empty();
    assert(condition_views(conditions@) =~= views);
    if let Some(outcome) = &query.outcome {
        conditions.push(GameCondition::Outcome(outcome.clone()));
        proof {
            views = views.push(GameConditionView::Outcome(outcome@));
        }
        assert(condition_views(conditions@) =~= views);
    }
    if let Some(sides) = query.sides {
        let (first, second) = sides_for(sides);
        if let Some(name) = &query.player1 {
            conditions.push(GameCondition::Name(first, name.clone()));
            proof {
                views = views.push(GameConditionView::Name(first, name@));
            }
            assert(condition_views(conditions@) =~= views);
        }
        if let Some(name) = &query.player2 {
            conditions.push(GameCondition::Name(second, name.clone()));
            proof {
                views = views.push(GameConditionView::Name(second, name@));
            }
            assert(condition_views(conditions@) =~= views);
        }
        match (sides, query.range1, query.range2) {
            (Sides::Any, Some(one), Some(two)) => {
                conditions.push(GameCondition::EloInEither(one.0, one.1, two.0, two.1));
                proof {
                    views = views.push(GameConditionView::EloInEither(one.0, one.1, two.0, two.1));
                }
                assert(condition_views(conditions@) =~= views);
            },
            (_, range1, range2) => {
                if let Some(range) = range1 {
                    conditions.push(GameCondition::Elo(first, range.0, range.1));
                    proof {
                        views = views.push(GameConditionView::Elo(first, range.0, range.1));
                    }
                    assert(condition_views(conditions@) =~= views);
                }
                if let Some(range) = range2 {
                    conditions.push(GameCondition::Elo(second, range.0, range.1));
                    proof {
                        views = views.push(GameConditionView::Elo(second, range.0, range.1));
                    }
                    assert(condition_views(conditions@) =~= views);
                }
            },
        }
    }
    proof {
        assert(views =~= conditions_for(query@));
    }
    Ok(
        GamePlan {
            conditions,
            sort: query.options.sort,
            direction: query.options.direction,
            limit: query.options.page_size,
            offset,
            count: !query.options.skip_count,
        },
    )
}

/// The conditions that [`plan_games`] lists for a query, in their order.
pub open spec fn conditions_for(query: GameQueryView) -> Seq<GameConditionView> {
    let outcome = match query.outcome {
        Some(text) => seq![GameConditionView::Outcome(text)],
        None => Seq::empty(),
    };
    match query.sides {
        None => outcome,
        Some(sides) => {
            let (first, second) = sides_of(sides);
            let one = match query.player1 {
                Some(name) => seq![GameConditionView::Name(first, name)],
                None => Seq::empty(),
            };
            let two = match query.player2 {
                Some(name) => seq![GameConditionView::Name(second, name)],
                None => Seq::empty(),
            };
            let ranges = if sides == Sides::Any && query.range1 is Some && query.range2 is Some {
                seq![
                    GameConditionView::EloInEither(
                        query.range1.unwrap().0,
                        query.range1.unwrap().1,
                        query.range2.unwrap().0,
                        query.range2.unwrap().1,
                    ),
                ]
            } else {
                (match query.range1 {
                    Some(range) => seq![GameConditionView::Elo(first, range.0, range.1)],
                    None => Seq::empty(),
                }) + (match query.range2 {
                    Some(range) => seq![GameConditionView::Elo(second, range.0, range.1)],
                    None => Seq::empty(),
                })
            };
            outcome + one + two + ranges
        },
    }
}

/// The views of a list of conditions, in order.
pub open spec fn condition_views(conditions: Seq<GameCondition>) -> Seq<GameConditionView> {
    Seq::new(conditions.len(), |i: int| conditions[i]@)
}

/// Two lists of conditions are met together where each is met.
proof fn lemma_all_met_both(
    facts: GameFacts,
    first: Seq<GameConditionView>,
    second: Seq<GameConditionView>,
)
    ensures
        all_met(facts, first + second) == (all_met(facts, first) && all_met(facts, second)),
{
    let both = first + second;
    if all_met(facts, both) {
        assert forall|i: int| 0 <= i < first.len() implies meets(facts, #[trigger] first[i]) by {
            assert(both[i] == first[i]);
        }
        assert forall|i: int| 0 <= i < second.len() implies meets(facts, #[trigger] second[i]) by {
            assert(both[first.len() + i] == second[i]);
        }
    }
    if all_met(facts, first) && all_met(facts, second) {
        assert forall|i: int| 0 <= i < both.len() implies meets(facts, #[trigger] both[i]) by {
            if i < first.len() {
                assert(both[i] == first[i]);
            } else {
                assert(both[i] == second[i - first.len()]);
            }
        }
    }
}

/// A list of one condition, or of none, is met where the condition is.
proof fn lemma_all_met_optional(facts: GameFacts, condition: Option<GameConditionView>)
    ensures
        all_met(
            facts,
            match condition {
                Some(c) => seq![c],
                None => Seq::empty(),
            },
        ) == (condition is Some ==> meets(facts, condition.unwrap())),
{
    if condition is Some {
        let list = seq![condition.unwrap()];
        assert(list[0] == condition.unwrap());
    }
}

/// The plan is the query: a game meets the conditions listed for a query
/// exactly where it is what the query asks for.
pub proof fn law_plan_lists_what_is_asked(query: GameQueryView, facts: GameFacts)
    ensures
        all_met(facts, conditions_for(query)) == asked_for(query, facts),
{
    let outcome = match query.outcome {
        Some(text) => Some(GameConditionView::Outcome(text)),
        None => None,
    };
    let outcome_list = match outcome {
        Some(c) => seq![c],
        None => Seq::empty(),
    };
    lemma_all_met_optional(facts, outcome);
    if query.sides is Some {
        let sides = query.sides.unwrap();
        let (first, second) = sides_of(sides);
        let one = match query.player1 {
            Some(name) => Some(GameConditionView::Name(first, name)),
            None => None,
        };
        let two = match query.player2 {
            Some(name) => Some(GameConditionView::Name(second, name)),
            None => None,
        };
        let one_list = match one {
            Some(c) => seq![c],
            None => Seq::empty(),
        };
        let two_list = match two {
            Some(c) => seq![c],
            None => Seq::empty(),
        };
        lemma_all_met_optional(facts, one);
        lemma_all_met_optional(facts, two);
        let ranges = if sides == Sides::Any && query.range1 is Some && query.range2 is Some {
            lemma_all_met_optional(
                facts,
                Some(
                    GameConditionView::EloInEither(
                        query.range1.unwrap().0,
                        query.range1.unwrap().1,
                        query.range2.unwrap().0,
                        query.range2.unwrap().1,
                    ),
                ),
            );
            seq![
                GameConditionView::EloInEither(
                    query.range1.unwrap().0,
                    query.range1.unwrap().1,
                    query.range2.unwrap().0,
                    query.range2.unwrap().1,
                ),
            ]
        } else {
            let low = match query.range1 {
                Some(range) => Some(GameConditionView::Elo(first, range.0, range.1)),
                None => None,
            };
            let high = match query.range2 {
                Some(range) => Some(GameConditionView::Elo(second, range.0, range.1)),
                None => None,
            };
            let low_list = match low {
                Some(c) => seq![c],
                None => Seq::empty(),
            };
            let high_list = match high {
                Some(c) => seq![c],
                None => Seq::empty(),
            };
            lemma_all_met_optional(facts, low);
            lemma_all_met_optional(facts, high);
            lemma_all_met_both(facts, low_list, high_list);
            low_list + high_list
        };
        lemma_all_met_both(facts, outcome_list, one_list);
        lemma_all_met_both(facts, outcome_list + one_list, two_list);
        lemma_all_met_both(facts, outcome_list + one_list + two_list, ranges);
        assert(conditions_for(query) == outcome_list + one_list + two_list + ranges);
    } else {
        assert(conditions_for(query) == outcome_list);
    }
}

/// The plan for a listing of players.
#[derive(Clone, Debug)]
pub struct PlayerPlan {
    /// The pattern that the name of a player has to match, if there is one:
    /// `%` stands for any run of characters.
    pub pattern: Option<String>,
    /// The range, its ends included, that the rating of a player has to lie
    /// in, if there is one.
    pub range: Option<(i32, i32)>,
    pub sort: PlayerSort,
    pub direction: SortDirection,
    /// The largest number of rows to return, if there is one.
    pub limit: Option<i64>,
    /// The number of rows to pass over, if any are.
    pub offset: Option<i64>,
    /// Whether the rows that match are to be counted.
    pub count: bool,
}

/// The pattern that matches the names that contain `part`.
pub open spec fn containing(part: Seq<char>) -> Seq<char> {
    "%"@ + part + "%"@
}

/// The pattern that a query for players asks names to match.
pub open spec fn pattern_for(name: Option<Seq<char>>) -> Option<Seq<char>> {
    match name {
        Some(part) => Some(containing(part)),
        None => None,
    }
}

/// Plans a listing of players.
///
/// The plan asks for the names that contain the text of the query and for
/// the ratings in its range, in the order the query asks for; it returns
/// the page asked for and counts unless the query says not to. Fails where
/// the page lies beyond what can be counted.
pub fn plan_players(query: &PlayerQuery) -> (r: Result<PlayerPlan, QueryError>)
    ensures
        match r {
            Ok(plan) => {
                &&& text_of(plan.pattern) == pattern_for(text_of(query.name))
                &&& plan.range == query.range
                &&& plan.sort == query.options.sort
                &&& plan.direction == query.options.direction
                &&& plan.limit == query.options.page_size
                &&& offset_of(query.options.page, query.options.page_size) == Ok::<
                    Option<i64>,
                    QueryError,
                >(plan.offset)
                &&& plan.count == !query.options.skip_count
            },
            Err(e) => offset_of(query.options.page, query.options.page_size) == Err::<
                Option<i64>,
                QueryError,
            >(e),
        },
{
    let offset = match page_offset(query.options.page, query.options.page_size) {
        Ok(offset) => offset,
        Err(e) => { return Err(e); },
    };
    let pattern = match &query.name {
        Some(part) => {
            let mut pattern = String::from_str("%");
            pattern.append(part.as_str());
            pattern.append("%");
            Some(pattern)
        },
        None => None,
    };
    Ok(
        PlayerPlan {
            pattern,
            range: query.range,
            sort: query.options.sort,
            direction: query.options.direction,
            limit: query.options.page_size,
            offset,
            count: !query.options.skip_count,
        },
    )
}

} // verus!
