//! Position search: which games of an archive pass through a position.
//!
//! A game is searched by replaying its move buffer and comparing the
//! position before the first move and after every move with the target.
//! An archive is searched game by game. For more than one worker the games
//! are dealt out in shares, and the `rayon` crate has the shares counted
//! side by side; that the counts of the shares add up to the count of the
//! whole is proved here.

use rayon::iter::{IntoParallelRefIterator, ParallelIterator};
use vstd::prelude::*;

use crate::codec::{next_step, replay, take_step, texts, CodecError};
use crate::engine::{
    fen_reading, initial_position, parse_fen, positions_equal, same_position, FenError, Position,
    PositionView, SuccessorView,
};
use crate::index::lemma_leading_rank_bounds;

verus! {

/// Whether the game in `bytes`, continued from `pos`, comes to `target`
/// after one of its moves. A malformed buffer is an error unless the target
/// was found before the fault.
pub open spec fn reached_later(pos: PositionView, bytes: Seq<u8>, target: PositionView) -> Result<
    bool,
    CodecError,
>
    decreases bytes.len(),
{
    if bytes.len() == 0 {
        Ok(false)
    } else {
        match next_step(pos, bytes) {
            Err(e) => Err(e),
            Ok((step, used)) => if same_position(step.position, target) {
                Ok(true)
            } else {
                proof {
                    lemma_leading_rank_bounds(bytes);
                }
                reached_later(step.position, bytes.skip(used as int), target)
            },
        }
    }
}

/// Whether the game in `bytes`, played from `start`, passes through
/// `target`. A game without moves passes through no position.
pub open spec fn search_game(start: PositionView, bytes: Seq<u8>, target: PositionView) -> Result<
    bool,
    CodecError,
> {
    if bytes.len() > 0 && same_position(start, target) {
        Ok(true)
    } else {
        reached_later(start, bytes, target)
    }
}

/// Whether a game of `steps` played from `start` passes through `target`.
pub open spec fn passes_through(
    start: PositionView,
    steps: Seq<SuccessorView>,
    target: PositionView,
) -> bool {
    steps.len() > 0 && (same_position(start, target) || exists|i: int|
        0 <= i < steps.len() && same_position(#[trigger] steps[i].position, target))
}

/// Whether a stored game, played from the standard initial position, is
/// found to pass through `target`.
pub open spec fn game_reaches(bytes: Seq<u8>, target: PositionView) -> bool {
    search_game(initial_position(), bytes, target) == Ok::<bool, CodecError>(true)
}

/// The number of games among `games` that pass through `target`.
pub open spec fn match_count(games: Seq<Seq<u8>>, target: PositionView) -> nat
    decreases games.len(),
{
    if games.len() == 0 {
        0
    } else {
        match_count(games.drop_last(), target) + if game_reaches(games.last(), target) {
            1nat
        } else {
            0nat
        }
    }
}

/// Searches one game for a position.
///
/// `Ok(true)` as soon as the game, replayed from `start`, is at `target`;
/// `Ok(false)` where it never is; an error where the buffer is found to be
/// malformed before the position is found.
pub fn position_search(bytes: &[u8], start: &Position, target: &Position) -> (r: Result<
    bool,
    CodecError,
>)
    ensures
        r == search_game(start@, bytes@, target@),
{
    if bytes.len() > 0 && positions_equal(start, target) {
        return Ok(true);
    }
    let mut cur = start.copy();
    let mut at: usize = 0;
    proof {
        assert(bytes@.skip(0) =~= bytes@);
    }
    while at < bytes.len()
        invariant
            at <= bytes@.len(),
            search_game(start@, bytes@, target@) == reached_later(
                cur@,
                bytes@.skip(at as int),
                target@,
            ),
        decreases bytes@.len() - at,
    {
        match take_step(&cur, bytes, at) {
            Err(e) => {
                return Err(e);
            },
            Ok((step, next)) => {
                if positions_equal(&step.position, target) {
                    return Ok(true);
                }
                proof {
                    assert(bytes@.skip(at as int).skip(next - at) =~= bytes@.skip(next as int));
                }
                cur = step.position;
                at = next;
            },
        }
    }
    Ok(false)
}

/// Whether a stored game, played from the standard initial position, passes
/// through `target`. A game whose buffer is malformed counts as passing
/// through only what it reached before the fault.
pub fn game_matches(bytes: &[u8], target: &Position) -> (r: bool)
    ensures
        r == game_reaches(bytes@, target@),
{
    let start = Position::initial();
    match position_search(bytes, &start, target) {
        Ok(found) => found,
        Err(_) => false,
    }
}

/// Counts the games of a share that pass through `target`, one after the
/// other.
pub fn count_share(share: &[Vec<u8>], target: &Position) -> (r: usize)
    ensures
        r == match_count(texts(share@), target@),
        r <= share@.len(),
{
    let ghost all = texts(share@);
    let mut count: usize = 0;
    let mut i: usize = 0;
    proof {
        assert(all.take(0) =~= Seq::<Seq<u8>>::empty());
    }
    while i < share.len()
        invariant
            i <= share@.len(),
            all == texts(share@),
            count == match_count(all.take(i as int), target@),
            count <= i,
        decreases share@.len() - i,
    {
        proof {
            let upto = all.take(i + 1);
            assert(upto.drop_last() =~= all.take(i as int));
            assert(upto.last() == share@[i as int]@);
        }
        if game_matches(share[i].as_slice(), target) {
            count += 1;
        }
        i += 1;
    }
    proof {
        assert(all.take(i as int) =~= all);
    }
    count
}

/// Counts the games that pass through `target`, one after the other.
pub fn count_matches(games: &Vec<Vec<u8>>, target: &Position) -> (r: usize)
    ensures
        r == match_count(texts(games@), target@),
{
    count_share(games.as_slice(), target)
}

/// The number of games in a share when `games` games are dealt out to
/// `workers` workers: the games divided by the workers, rounded up. There
/// are never more workers than games, and never fewer than one.
pub open spec fn share_size(games: nat, workers: nat) -> nat {
    let parts = if workers == 0 {
        1
    } else if workers > games {
        games
    } else {
        workers
    };
    if parts == 0 {
        0
    } else if games % parts == 0 {
        games / parts
    } else {
        games / parts + 1
    }
}

/// The games of a list of shares, share by share.
pub open spec fn share_texts(shares: Seq<&[Vec<u8>]>) -> Seq<Seq<Seq<u8>>> {
    Seq::new(shares.len(), |i: int| texts(shares[i]@))
}

/// The games of all shares, in the order of the shares.
pub open spec fn joined(shares: Seq<Seq<Seq<u8>>>) -> Seq<Seq<u8>>
    decreases shares.len(),
{
    if shares.len() == 0 {
        Seq::empty()
    } else {
        joined(shares.drop_last()) + shares.last()
    }
}

/// The number of games, counted share by share, that pass through `target`.
pub open spec fn total_of(shares: Seq<Seq<Seq<u8>>>, target: PositionView) -> nat
    decreases shares.len(),
{
    if shares.len() == 0 {
        0
    } else {
        total_of(shares.drop_last(), target) + match_count(shares.last(), target)
    }
}

/// Deals the games out in shares for `workers` workers: every game in one
/// share, in the order of the games, every share of [`share_size`] games
/// but the last, which holds what is left.
pub fn share_out<'a>(games: &'a [Vec<u8>], workers: usize) -> (shares: Vec<&'a [Vec<u8>]>)
    ensures
        joined(share_texts(shares@)) == texts(games@),
        forall|i: int|
            0 <= i < shares@.len() ==> 1 <= (#[trigger] shares@[i])@.len() <= share_size(
                games@.len(),
                workers as nat,
            ),
        forall|i: int|
            0 <= i < shares@.len() - 1 ==> (#[trigger] shares@[i])@.len() == share_size(
                games@.len(),
                workers as nat,
            ),
{
    let n = games.len();
    let mut shares: Vec<&'a [Vec<u8>]> = Vec::new();
    if n == 0 {
        assert(joined(share_texts(shares@)) =~= texts(games@));
        return shares;
    }
    let parts = if workers == 0 {
        1
    } else if workers > n {
        n
    } else {
        workers
    };
    assert(1 <= n / parts <= n && (n % parts != 0 ==> n / parts < n)) by (nonlinear_arith)
        requires
            1 <= parts <= n,
    ;
    let size = if n % parts == 0 {
        n / parts
    } else {
        n / parts + 1
    };
    let mut at: usize = 0;
    proof {
        assert(texts(games@).take(0) =~= Seq::<Seq<u8>>::empty());
    }
    while at < n
        invariant
            at <= n,
            n == games@.len(),
            size >= 1,
            size == share_size(n as nat, workers as nat),
            joined(share_texts(shares@)) == texts(games@).take(at as int),
            forall|i: int| 0 <= i < shares@.len() ==> (#[trigger] shares@[i])@.len() == size,
        decreases n - at,
    {
        let end = if n - at < size {
            n
        } else {
            at + size
        };
        let share = vstd::slice::slice_subrange(games, at, end);
        proof {
            let before = share_texts(shares@);
            let after = share_texts(shares@.push(share));
            assert(after.drop_last() =~= before);
            assert(after.last() == texts(share@));
            assert(texts(games@).take(at as int) + texts(share@) =~= texts(games@).take(
                end as int,
            ));
        }
        shares.push(share);
        if end == n {
            proof {
                assert(texts(games@).take(n as int) =~= texts(games@));
            }
            return shares;
        }
        at = end;
    }
    proof {
        assert(texts(games@).take(n as int) =~= texts(games@));
    }
    shares
}

/// Counting share by share is counting the games of all shares.
pub proof fn lemma_total_is_count(shares: Seq<Seq<Seq<u8>>>, target: PositionView)
    ensures
        total_of(shares, target) == match_count(joined(shares), target),
    decreases shares.len(),
{
    if shares.len() > 0 {
        lemma_total_is_count(shares.drop_last(), target);
        law_count_additive(joined(shares.drop_last()), shares.last(), target);
    }
}

/// No more games pass through a position than there are games.
pub proof fn lemma_count_bounded(games: Seq<Seq<u8>>, target: PositionView)
    ensures
        match_count(games, target) <= games.len(),
    decreases games.len(),
{
    if games.len() > 0 {
        lemma_count_bounded(games.drop_last(), target);
    }
}

/// Has `rayon` count the shares side by side: `par_iter` hands the shares
/// to the threads of its pool, `map` has each share counted by
/// [`count_share`], and `sum` adds the counts up. The contract says what
/// the documentation of these three promises: the sum of what the mapped
/// function returns for the items.
#[verifier::external_body]
fn sum_shares(shares: &Vec<&[Vec<u8>]>, target: &Position) -> (r: usize)
    requires
        total_of(share_texts(shares@), target@) <= usize::MAX,
    ensures
        r == total_of(share_texts(shares@), target@),
{
    shares.par_iter().map(|share| count_share(share, target)).sum()
}

/// Searches an archive for a position: counts the stored games that pass
/// through `target`.
///
/// With more than one worker the games are dealt out in shares, one for
/// each worker, and the shares are counted side by side. The count does not
/// depend on the number of workers.
pub fn search(games: &Vec<Vec<u8>>, target: &Position, workers: usize) -> (r: usize)
    ensures
        r == match_count(texts(games@), target@),
{
    if workers <= 1 {
        count_matches(games, target)
    } else {
        let shares = share_out(games.as_slice(), workers);
        proof {
            lemma_total_is_count(share_texts(shares@), target@);
            lemma_count_bounded(texts(games@), target@);
            assert(texts(games@).len() == games.len());
        }
        sum_shares(&shares, target)
    }
}

/// Searches an archive for the position that `fen` spells: counts the
/// stored games that pass through it, on `workers` threads.
///
/// Fails where `fen` spells no position: with `Malformed` where it is no
/// FEN record at all, with `Illegal` where the record describes no
/// playable position.
pub fn search_position(games: &Vec<Vec<u8>>, fen: &[u8], workers: usize) -> (r: Result<
    usize,
    FenError,
>)
    ensures
        match r {
            Ok(count) => match fen_reading(fen@) {
                Ok(target) => count == match_count(texts(games@), target),
                Err(_) => false,
            },
            Err(e) => fen_reading(fen@) == Err::<PositionView, FenError>(e),
        },
{
    match parse_fen(fen) {
        Ok(target) => Ok(search(games, &target, workers)),
        Err(e) => Err(e),
    }
}

/// An archive of one game: the count is one where the game passes through
/// the target and nought where it does not.
pub proof fn law_single_game(bytes: Seq<u8>, target: PositionView)
    requires
        replay(initial_position(), bytes) is Ok,
    ensures
        match_count(seq![bytes], target) == (if passes_through(
            initial_position(),
            replay(initial_position(), bytes).unwrap(),
            target,
        ) {
            1nat
        } else {
            0nat
        }),
{
    law_search_finds_visited(initial_position(), bytes, target);
    let one = seq![bytes];
    assert(one.last() == bytes);
    assert(one.drop_last() =~= Seq::<Seq<u8>>::empty());
    assert(match_count(one.drop_last(), target) == 0);
}

/// A search finds exactly the positions that the game passes through: for a
/// buffer that replays without fault, the search says whether the target is
/// among the positions of the game.
pub proof fn law_search_finds_visited(start: PositionView, bytes: Seq<u8>, target: PositionView)
    requires
        replay(start, bytes) is Ok,
    ensures
        search_game(start, bytes, target) == Ok::<bool, CodecError>(
            passes_through(start, replay(start, bytes).unwrap(), target),
        ),
{
    lemma_reached_later(start, bytes, target);
    let steps = replay(start, bytes).unwrap();
    if bytes.len() > 0 {
        lemma_leading_rank_bounds(bytes);
    }
}

/// For a buffer that replays without fault, `reached_later` says whether
/// the target is among the positions after the moves.
proof fn lemma_reached_later(pos: PositionView, bytes: Seq<u8>, target: PositionView)
    requires
        replay(pos, bytes) is Ok,
    ensures
        reached_later(pos, bytes, target) == Ok::<bool, CodecError>(
            exists|i: int|
                0 <= i < replay(pos, bytes).unwrap().len() && same_position(
                    #[trigger] replay(pos, bytes).unwrap()[i].position,
                    target,
                ),
        ),
        bytes.len() > 0 ==> replay(pos, bytes).unwrap().len() > 0,
    decreases bytes.len(),
{
    let steps = replay(pos, bytes).unwrap();
    if bytes.len() > 0 {
        let (step, used) = next_step(pos, bytes).unwrap();
        lemma_leading_rank_bounds(bytes);
        let rest = bytes.skip(used as int);
        let tail = replay(step.position, rest).unwrap();
        lemma_reached_later(step.position, rest, target);
        assert(steps =~= seq![step] + tail);
        assert(steps[0] == step);
        if same_position(step.position, target) {
            assert(same_position(steps[0].position, target));
        } else {
            if exists|i: int|
                0 <= i < tail.len() && same_position(#[trigger] tail[i].position, target) {
                let i = choose|i: int|
                    0 <= i < tail.len() && same_position(#[trigger] tail[i].position, target);
                assert(steps[i + 1] == tail[i]);
                assert(same_position(steps[i + 1].position, target));
            }
            if exists|i: int|
                0 <= i < steps.len() && same_position(#[trigger] steps[i].position, target) {
                let i = choose|i: int|
                    0 <= i < steps.len() && same_position(#[trigger] steps[i].position, target);
                assert(i > 0);
                assert(steps[i] == tail[i - 1]);
                assert(same_position(tail[i - 1].position, target));
            }
        }
    }
}

/// Every game that has a move passes through the position it starts from.
pub proof fn law_start_is_visited(start: PositionView, bytes: Seq<u8>)
    requires
        bytes.len() > 0,
    ensures
        search_game(start, bytes, start) == Ok::<bool, CodecError>(true),
{
}

/// Counting is additive: the games of two archives put together match as
/// often as those of the one and those of the other. However the games are
/// shared out among workers, the counts of the shares add up to the count
/// of the whole.
pub proof fn law_count_additive(a: Seq<Seq<u8>>, b: Seq<Seq<u8>>, target: PositionView)
    ensures
        match_count(a + b, target) == match_count(a, target) + match_count(b, target),
    decreases b.len(),
{
    if b.len() == 0 {
        assert(a + b =~= a);
    } else {
        assert((a + b).drop_last() =~= a + b.drop_last());
        assert((a + b).last() == b.last());
        law_count_additive(a, b.drop_last(), target);
    }
}

} // verus!
