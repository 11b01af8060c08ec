//! The move codec: a game's moves packed into a byte buffer and read back.
//!
//! A move is stored as its rank among the legal moves of the position it is
//! played from. Reading a buffer therefore replays the game: the legal
//! moves are generated again at every ply, and the stored rank picks one.

use vstd::prelude::*;

use crate::engine::{
    canonical_san, successor_views, successors_of, Position, PositionView, Successor,
    SuccessorView,
};
use crate::index::{leading_rank, lemma_leading_rank_bounds, lemma_rank_roundtrip, rank_bytes};
use crate::text::bytes_eq;

verus! {

/// Why a line of moves could not be packed, or a buffer not read.
#[derive(Clone, Copy, Debug, PartialEq, Eq, Structural)]
pub enum CodecError {
    /// A position on the line cannot be played from.
    InvalidPosition,
    /// A move denotes no legal move in the position it is played from.
    UnresolvedMove,
    /// The buffer ends in the middle of a rank.
    Truncated,
    /// The buffer holds a rank that no legal move has.
    RankOutOfRange,
}

/// The notations of a list of moves, in order.
pub open spec fn texts(moves: Seq<Vec<u8>>) -> Seq<Seq<u8>> {
    Seq::new(moves.len(), |i: int| moves[i]@)
}

/// The notations of the moves of a list of steps, in order.
pub open spec fn sans_of(steps: Seq<SuccessorView>) -> Seq<Seq<u8>> {
    Seq::new(steps.len(), |i: int| steps[i].san)
}

/// Whether `rank` is the first place in `list` of a move written `san`.
pub open spec fn is_rank(list: Seq<SuccessorView>, san: Seq<u8>, rank: int) -> bool {
    &&& 0 <= rank < list.len()
    &&& list[rank].san == san
    &&& forall|j: int| 0 <= j < rank ==> list[j].san != san
}

/// The first place in `list` of a move written `san`.
pub open spec fn rank_of(list: Seq<SuccessorView>, san: Seq<u8>) -> Option<nat> {
    if exists|rank: int| is_rank(list, san, rank) {
        Some((choose|rank: int| is_rank(list, san, rank)) as nat)
    } else {
        None
    }
}

/// The rank of the move that `san` denotes in `pos`, whose legal moves are
/// `list`. Notation that the list holds as written is taken at its word;
/// other notation is first put into the form the rules engine writes.
pub open spec fn move_rank(pos: PositionView, list: Seq<SuccessorView>, san: Seq<u8>) -> Option<
    nat,
> {
    match rank_of(list, san) {
        Some(rank) => Some(rank),
        None => match canonical_san(pos, san) {
            Some(written) => rank_of(list, written),
            None => None,
        },
    }
}

/// The move that `san` denotes in `pos`: its rank, and the move with the
/// position it leads to.
pub open spec fn resolution(pos: PositionView, san: Seq<u8>) -> Result<
    (nat, SuccessorView),
    CodecError,
> {
    match successors_of(pos) {
        None => Err(CodecError::InvalidPosition),
        Some(list) => match move_rank(pos, list, san) {
            None => Err(CodecError::UnresolvedMove),
            Some(rank) => Ok((rank, list[rank as int])),
        },
    }
}

/// `bytes` put in front of what `rest` holds, where it holds bytes.
pub open spec fn bytes_then(bytes: Seq<u8>, rest: Result<Seq<u8>, CodecError>) -> Result<
    Seq<u8>,
    CodecError,
> {
    match rest {
        Ok(more) => Ok(bytes + more),
        Err(e) => Err(e),
    }
}

/// `steps` put in front of what `rest` holds, where it holds steps.
pub open spec fn steps_then(
    steps: Seq<SuccessorView>,
    rest: Result<Seq<SuccessorView>, CodecError>,
) -> Result<Seq<SuccessorView>, CodecError> {
    match rest {
        Ok(more) => Ok(steps + more),
        Err(e) => Err(e),
    }
}

/// The buffer for the line `moves` played from `start`: the ranks of the
/// moves, one after the other. The first move that cannot be resolved
/// decides the error.
pub open spec fn encode_line(start: PositionView, moves: Seq<Seq<u8>>) -> Result<
    Seq<u8>,
    CodecError,
>
    decreases moves.len(),
{
    if moves.len() == 0 {
        Ok(Seq::empty())
    } else {
        match resolution(start, moves[0]) {
            Err(e) => Err(e),
            Ok((rank, step)) => bytes_then(
                rank_bytes(rank),
                encode_line(step.position, moves.drop_first()),
            ),
        }
    }
}

/// The move that the front of `bytes` picks in `pos`, with the number of
/// bytes its rank takes.
pub open spec fn next_step(pos: PositionView, bytes: Seq<u8>) -> Result<
    (SuccessorView, nat),
    CodecError,
> {
    match leading_rank(bytes) {
        None => Err(CodecError::Truncated),
        Some((rank, used)) => match successors_of(pos) {
            None => Err(CodecError::InvalidPosition),
            Some(list) => if rank < list.len() {
                Ok((list[rank as int], used))
            } else {
                Err(CodecError::RankOutOfRange)
            },
        },
    }
}

/// The game that `bytes` holds, replayed from `start`: every move with the
/// position it leads to. The first rank that cannot be read or followed
/// decides the error.
pub open spec fn replay(start: PositionView, bytes: Seq<u8>) -> Result<
    Seq<SuccessorView>,
    CodecError,
>
    decreases bytes.len(),
{
    if bytes.len() == 0 {
        Ok(Seq::empty())
    } else {
        match next_step(start, bytes) {
            Err(e) => Err(e),
            Ok((step, used)) => {
                proof {
                    lemma_leading_rank_bounds(bytes);
                }
                steps_then(seq![step], replay(step.position, bytes.skip(used as int)))
            },
        }
    }
}

/// The moves that `bytes` holds, replayed from `start`.
pub open spec fn decode_line(start: PositionView, bytes: Seq<u8>) -> Result<
    Seq<Seq<u8>>,
    CodecError,
> {
    match replay(start, bytes) {
        Ok(steps) => Ok(sans_of(steps)),
        Err(e) => Err(e),
    }
}

/// Whether every move of `moves` is, as written, the notation of a legal
/// move in the position it is played from, starting at `start`.
pub open spec fn legal_line(start: PositionView, moves: Seq<Seq<u8>>) -> bool
    decreases moves.len(),
{
    if moves.len() == 0 {
        true
    } else {
        match successors_of(start) {
            None => false,
            Some(list) => match rank_of(list, moves[0]) {
                None => false,
                Some(rank) => legal_line(list[rank as int].position, moves.drop_first()),
            },
        }
    }
}

/// The position at the end of the line of legal moves `moves` played from
/// `start`.
pub open spec fn line_end(start: PositionView, moves: Seq<Seq<u8>>) -> PositionView
    decreases moves.len(),
{
    if moves.len() == 0 {
        start
    } else {
        match successors_of(start) {
            None => start,
            Some(list) => match rank_of(list, moves[0]) {
                None => start,
                Some(rank) => line_end(list[rank as int].position, moves.drop_first()),
            },
        }
    }
}

/// The steps of the line `moves` played from `start`: each move as it is
/// resolved, with the position it leads to. The line ends at the first move
/// that cannot be resolved.
pub open spec fn line_steps(start: PositionView, moves: Seq<Seq<u8>>) -> Seq<SuccessorView>
    decreases moves.len(),
{
    if moves.len() == 0 {
        Seq::empty()
    } else {
        match resolution(start, moves[0]) {
            Err(_) => Seq::empty(),
            Ok((_, step)) => seq![step] + line_steps(step.position, moves.drop_first()),
        }
    }
}

/// Whether `steps` is a game played from `start`: every step a legal move
/// of the position before it, leading to the position the next is played
/// from.
pub open spec fn legal_steps(start: PositionView, steps: Seq<SuccessorView>) -> bool
    decreases steps.len(),
{
    if steps.len() == 0 {
        true
    } else {
        match successors_of(start) {
            None => false,
            Some(list) => list.contains(steps[0]) && legal_steps(
                steps[0].position,
                steps.drop_first(),
            ),
        }
    }
}

/// The rank of the first move in `list` that is written `san`.
pub fn find_rank(list: &Vec<Successor>, san: &[u8]) -> (r: Option<usize>)
    ensures
        match r {
            Some(rank) => rank_of(successor_views(list@), san@) == Some(rank as nat),
            None => rank_of(successor_views(list@), san@) is None,
        },
{
    let ghost views = successor_views(list@);
    let mut i: usize = 0;
    while i < list.len()
        invariant
            i <= list@.len(),
            views == successor_views(list@),
            forall|j: int| 0 <= j < i ==> views[j].san != san@,
        decreases list@.len() - i,
    {
        if bytes_eq(list[i].san.as_slice(), san) {
            proof {
                assert(views[i as int].san == san@);
                assert(is_rank(views, san@, i as int));
                lemma_rank_unique(views, san@, i as int);
            }
            return Some(i);
        }
        i += 1;
    }
    proof {
        lemma_rank_of(views, san@);
    }
    None
}

/// Resolves a move: finds the legal move of `pos` that `san` denotes.
///
/// Returns the move's rank among the legal moves, and the move with the
/// position it leads to. Fails with `InvalidPosition` where `pos` cannot be
/// played from, and with `UnresolvedMove` where `san` denotes no legal move.
pub fn resolve_move(pos: &Position, san: &[u8]) -> (r: Result<(usize, Successor), CodecError>)
    ensures
        match r {
            Ok((rank, step)) => resolution(pos@, san@) == Ok::<(nat, SuccessorView), CodecError>(
                (rank as nat, step@),
            ),
            Err(e) => resolution(pos@, san@) == Err::<(nat, SuccessorView), CodecError>(e),
        },
{
    let mut list = match crate::engine::legal_moves(pos) {
        Some(list) => list,
        None => { return Err(CodecError::InvalidPosition); },
    };
    let found = match find_rank(&list, san) {
        Some(rank) => Some(rank),
        None => match crate::engine::engine_canonical_san(pos, san) {
            Some(written) => find_rank(&list, written.as_slice()),
            None => None,
        },
    };
    match found {
        None => Err(CodecError::UnresolvedMove),
        Some(rank) => {
            proof {
                lemma_rank_of(successor_views(list@), san@);
                if rank_of(successor_views(list@), san@) is None {
                    lemma_rank_of(
                        successor_views(list@),
                        canonical_san(pos@, san@).unwrap(),
                    );
                }
            }
            let step = list.remove(rank);
            Ok((rank, step))
        },
    }
}

/// Plays a move: the position after the legal move of `pos` that `san`
/// denotes. Fails as [`resolve_move`] does.
pub fn apply(pos: &Position, san: &[u8]) -> (r: Result<Position, CodecError>)
    ensures
        match r {
            Ok(next) => match resolution(pos@, san@) {
                Ok((_, step)) => next@ == step.position,
                Err(_) => false,
            },
            Err(e) => resolution(pos@, san@) == Err::<(nat, SuccessorView), CodecError>(e),
        },
{
    match resolve_move(pos, san) {
        Ok((_, step)) => Ok(step.position),
        Err(e) => Err(e),
    }
}

/// Packs the line `moves`, played from `start`, into a buffer.
///
/// Fails where a move cannot be resolved in the position it is played from.
pub fn encode_moves(moves: &Vec<Vec<u8>>, start: &Position) -> (r: Result<Vec<u8>, CodecError>)
    ensures
        match r {
            Ok(bytes) => encode_line(start@, texts(moves@)) == Ok::<Seq<u8>, CodecError>(bytes@),
            Err(e) => encode_line(start@, texts(moves@)) == Err::<Seq<u8>, CodecError>(e),
        },
{
    let ghost line = texts(moves@);
    let mut out: Vec<u8> = Vec::new();
    let mut cur = start.copy();
    let mut i: usize = 0;
    proof {
        assert(line.skip(0) =~= line);
        assert(out@ + Seq::<u8>::empty() =~= out@);
    }
    while i < moves.len()
        invariant
            i <= moves@.len(),
            line == texts(moves@),
            encode_line(start@, line) == bytes_then(out@, encode_line(cur@, line.skip(i as int))),
        decreases moves@.len() - i,
    {
        let ghost before = out@;
        let ghost rest = line.skip(i as int);
        proof {
            assert(rest[0] == moves@[i as int]@);
            assert(rest.drop_first() =~= line.skip(i + 1));
        }
        match resolve_move(&cur, moves[i].as_slice()) {
            Err(e) => {
                return Err(e);
            },
            Ok((rank, step)) => {
                crate::index::write_rank(&mut out, rank);
                proof {
                    let tail = encode_line(step@.position, line.skip(i + 1));
                    if tail is Ok {
                        assert(before + (rank_bytes(rank as nat) + tail.unwrap()) =~= out@
                            + tail.unwrap());
                    }
                }
                cur = step.position;
            },
        }
        i += 1;
    }
    proof {
        assert(line.skip(i as int).len() == 0);
        assert(out@ + Seq::<u8>::empty() =~= out@);
    }
    Ok(out)
}

/// Picks the move of rank `rank` out of a list of legal moves; `None` where
/// the list has no move of that rank.
pub fn pick_move(list: Vec<Successor>, rank: u128) -> (r: Option<Successor>)
    ensures
        match r {
            Some(step) => rank < list@.len() && step == list@[rank as int],
            None => rank >= list@.len(),
        },
{
    let mut list = list;
    if rank >= list.len() as u128 {
        None
    } else {
        Some(list.remove(rank as usize))
    }
}

/// Follows the rank that starts at `bytes[at]`: picks the legal move of
/// `pos` that has this rank.
///
/// Returns the move with the position it leads to, and the place where the
/// next rank starts.
pub fn take_step(pos: &Position, bytes: &[u8], at: usize) -> (r: Result<
    (Successor, usize),
    CodecError,
>)
    requires
        at <= bytes@.len(),
    ensures
        match r {
            Ok((step, next)) => at < next <= bytes@.len() && next_step(
                pos@,
                bytes@.skip(at as int),
            ) == Ok::<(SuccessorView, nat), CodecError>((step@, (next - at) as nat)),
            Err(e) => next_step(pos@, bytes@.skip(at as int)) == Err::<
                (SuccessorView, nat),
                CodecError,
            >(e),
        },
{
    let (rank, next) = match crate::index::read_rank(bytes, at) {
        Some(found) => found,
        None => { return Err(CodecError::Truncated); },
    };
    let list = match crate::engine::legal_moves(pos) {
        Some(list) => list,
        None => { return Err(CodecError::InvalidPosition); },
    };
    match pick_move(list, rank) {
        Some(step) => Ok((step, next)),
        None => Err(CodecError::RankOutOfRange),
    }
}

/// Reads the moves that a buffer holds, replaying the game from `start`.
///
/// Fails where the buffer is malformed: where it ends in the middle of a
/// rank, or holds a rank that no legal move has.
pub fn decode_moves(bytes: &[u8], start: &Position) -> (r: Result<Vec<Vec<u8>>, CodecError>)
    ensures
        match r {
            Ok(moves) => decode_line(start@, bytes@) == Ok::<Seq<Seq<u8>>, CodecError>(
                texts(moves@),
            ),
            Err(e) => decode_line(start@, bytes@) == Err::<Seq<Seq<u8>>, CodecError>(e),
        },
{
    let mut out: Vec<Vec<u8>> = Vec::new();
    let mut cur = start.copy();
    let mut at: usize = 0;
    let ghost mut done: Seq<SuccessorView> = Seq::empty();
    proof {
        assert(bytes@.skip(0) =~= bytes@);
        lemma_steps_then_empty(replay(cur@, bytes@));
        assert(texts(out@) =~= sans_of(done));
    }
    while at < bytes.len()
        invariant
            at <= bytes@.len(),
            replay(start@, bytes@) == steps_then(done, replay(cur@, bytes@.skip(at as int))),
            texts(out@) == sans_of(done),
        decreases bytes@.len() - at,
    {
        let ghost rest = bytes@.skip(at as int);
        match take_step(&cur, bytes, at) {
            Err(e) => {
                return Err(e);
            },
            Ok((step, next)) => {
                proof {
                    assert(rest.skip(next - at) =~= bytes@.skip(next as int));
                    lemma_steps_then_push(
                        done,
                        step@,
                        replay(step@.position, bytes@.skip(next as int)),
                    );
                    assert(texts(out@).len() == sans_of(done).len());
                    assert forall|i: int| 0 <= i < out@.len() implies texts(out@.push(step.san))[i]
                        == sans_of(done.push(step@))[i] by {
                        assert(texts(out@)[i] == sans_of(done)[i]);
                    }
                    assert(texts(out@.push(step.san)) =~= sans_of(done.push(step@)));
                    done = done.push(step@);
                }
                out.push(step.san);
                cur = step.position;
                at = next;
            },
        }
    }
    proof {
        assert(bytes@.skip(at as int).len() == 0);
        assert(done + Seq::<SuccessorView>::empty() =~= done);
    }
    Ok(out)
}

/// Reads the moves that a buffer holds, for display: a malformed buffer
/// reads as a game without moves.
pub fn decode_moves_or_empty(bytes: &[u8], start: &Position) -> (r: Vec<Vec<u8>>)
    ensures
        match decode_line(start@, bytes@) {
            Ok(moves) => texts(r@) == moves,
            Err(_) => r@.len() == 0,
        },
{
    match decode_moves(bytes, start) {
        Ok(moves) => moves,
        Err(_) => Vec::new(),
    }
}

/// A rank that `rank_of` gives is the first place of the notation.
pub proof fn lemma_rank_of(list: Seq<SuccessorView>, san: Seq<u8>)
    ensures
        match rank_of(list, san) {
            Some(rank) => is_rank(list, san, rank as int),
            None => forall|j: int| 0 <= j < list.len() ==> list[j].san != san,
        },
{
    if !(exists|rank: int| is_rank(list, san, rank)) {
        assert forall|j: int| 0 <= j < list.len() implies list[j].san != san by {
            if list[j].san == san {
                lemma_first_place(list, san, j);
            }
        }
    }
}

/// Where notation occurs in a list, it has a first place.
proof fn lemma_first_place(list: Seq<SuccessorView>, san: Seq<u8>, at: int)
    requires
        0 <= at < list.len(),
        list[at].san == san,
    ensures
        exists|rank: int| is_rank(list, san, rank),
    decreases at,
{
    if exists|j: int| 0 <= j < at && list[j].san == san {
        let j = choose|j: int| 0 <= j < at && list[j].san == san;
        lemma_first_place(list, san, j);
    } else {
        assert(is_rank(list, san, at));
    }
}

/// The first place of a notation is its rank.
pub proof fn lemma_rank_unique(list: Seq<SuccessorView>, san: Seq<u8>, rank: int)
    requires
        is_rank(list, san, rank),
    ensures
        rank_of(list, san) == Some(rank as nat),
{
    let chosen = choose|r: int| is_rank(list, san, r);
    assert(is_rank(list, san, chosen));
    if chosen < rank {
        assert(list[chosen].san != san);
    } else if rank < chosen {
        assert(list[rank].san != san);
    }
}

/// Nothing put in front changes nothing.
proof fn lemma_steps_then_empty(rest: Result<Seq<SuccessorView>, CodecError>)
    ensures
        steps_then(Seq::empty(), rest) == rest,
{
    if rest is Ok {
        assert(Seq::<SuccessorView>::empty() + rest.unwrap() =~= rest.unwrap());
    }
}

/// Putting steps in front, then one more, is putting all of them in front.
proof fn lemma_steps_then_push(
    done: Seq<SuccessorView>,
    step: SuccessorView,
    rest: Result<Seq<SuccessorView>, CodecError>,
)
    ensures
        steps_then(done, steps_then(seq![step], rest)) == steps_then(done.push(step), rest),
{
    if rest is Ok {
        assert(done + (seq![step] + rest.unwrap()) =~= done.push(step) + rest.unwrap());
    }
}

/// A buffer that was packed replays as the line it was packed from: move by
/// move the same steps, and as many of them as the line has moves.
pub proof fn lemma_replay_of_encoded(start: PositionView, moves: Seq<Seq<u8>>)
    requires
        encode_line(start, moves) is Ok,
    ensures
        replay(start, encode_line(start, moves).unwrap()) == Ok::<Seq<SuccessorView>, CodecError>(
            line_steps(start, moves),
        ),
        line_steps(start, moves).len() == moves.len(),
    decreases moves.len(),
{
    if moves.len() > 0 {
        let (rank, step) = resolution(start, moves[0]).unwrap();
        let rest = moves.drop_first();
        let tail = encode_line(step.position, rest).unwrap();
        let head = rank_bytes(rank);
        let bytes = head + tail;
        let list = successors_of(start).unwrap();
        lemma_replay_of_encoded(step.position, rest);
        lemma_rank_roundtrip(rank, tail);
        lemma_rank_of(list, moves[0]);
        if rank_of(list, moves[0]) is None {
            lemma_rank_of(list, canonical_san(start, moves[0]).unwrap());
        }
        assert(head.len() >= 1) by {
            lemma_leading_rank_bounds(bytes);
        }
        assert(bytes.skip(head.len() as int) =~= tail);
        assert(next_step(start, bytes) == Ok::<(SuccessorView, nat), CodecError>(
            (step, head.len()),
        ));
    }
}

/// A line of legal moves can be packed, and its steps carry the moves as
/// they were written.
pub proof fn lemma_legal_line_encodes(start: PositionView, moves: Seq<Seq<u8>>)
    requires
        legal_line(start, moves),
    ensures
        encode_line(start, moves) is Ok,
        sans_of(line_steps(start, moves)) == moves,
    decreases moves.len(),
{
    if moves.len() > 0 {
        let list = successors_of(start).unwrap();
        let rank = rank_of(list, moves[0]).unwrap();
        let step = list[rank as int];
        let rest = moves.drop_first();
        lemma_rank_of(list, moves[0]);
        lemma_legal_line_encodes(step.position, rest);
        let steps = line_steps(start, moves);
        assert(steps == seq![step] + line_steps(step.position, rest));
        assert forall|i: int| 0 <= i < moves.len() implies sans_of(steps)[i] == moves[i] by {
            if i > 0 {
                assert(steps[i] == line_steps(step.position, rest)[i - 1]);
                assert(sans_of(line_steps(step.position, rest))[i - 1] == rest[i - 1]);
            }
        }
        assert(sans_of(steps) =~= moves);
    } else {
        assert(sans_of(line_steps(start, moves)) =~= moves);
    }
}

/// A line of legal moves stays one when a move is added that resolves at
/// its end; the move is added as the rules engine writes it, and the line
/// then ends where the move leads.
pub proof fn lemma_line_extends(start: PositionView, moves: Seq<Seq<u8>>, san: Seq<u8>)
    requires
        legal_line(start, moves),
        resolution(line_end(start, moves), san) is Ok,
    ensures
        legal_line(start, moves.push(resolution(line_end(start, moves), san).unwrap().1.san)),
        line_end(start, moves.push(resolution(line_end(start, moves), san).unwrap().1.san))
            == resolution(line_end(start, moves), san).unwrap().1.position,
    decreases moves.len(),
{
    let end = line_end(start, moves);
    let (rank, step) = resolution(end, san).unwrap();
    let longer = moves.push(step.san);
    let list = successors_of(start).unwrap();
    if moves.len() == 0 {
        lemma_rank_of(list, san);
        if rank_of(list, san) is None {
            lemma_rank_of(list, canonical_san(start, san).unwrap());
        }
        lemma_rank_unique(list, step.san, rank as int);
        let rest = longer.drop_first();
        assert(longer[0] == step.san);
        assert(rest.len() == 0);
        assert(legal_line(step.position, rest));
        assert(line_end(step.position, rest) == step.position);
    } else {
        let first = rank_of(list, moves[0]).unwrap();
        let next = list[first as int].position;
        assert(end == line_end(next, moves.drop_first()));
        lemma_line_extends(next, moves.drop_first(), san);
        assert(longer.drop_first() =~= moves.drop_first().push(step.san));
        assert(longer[0] == moves[0]);
        assert(legal_line(next, longer.drop_first()));
    }
}

/// The round trip: a line of legal moves, packed and read back, is the line
/// again.
pub proof fn law_roundtrip(start: PositionView, moves: Seq<Seq<u8>>)
    requires
        legal_line(start, moves),
    ensures
        encode_line(start, moves) is Ok,
        decode_line(start, encode_line(start, moves).unwrap()) == Ok::<Seq<Seq<u8>>, CodecError>(
            moves,
        ),
{
    lemma_legal_line_encodes(start, moves);
    lemma_replay_of_encoded(start, moves);
}

/// The moves read from a buffer are a line of legal moves.
pub proof fn law_decoded_is_legal(start: PositionView, bytes: Seq<u8>)
    requires
        replay(start, bytes) is Ok,
    ensures
        legal_steps(start, replay(start, bytes).unwrap()),
    decreases bytes.len(),
{
    if bytes.len() > 0 {
        let (step, used) = next_step(start, bytes).unwrap();
        lemma_leading_rank_bounds(bytes);
        law_decoded_is_legal(step.position, bytes.skip(used as int));
        let steps = replay(start, bytes).unwrap();
        let tail = replay(step.position, bytes.skip(used as int)).unwrap();
        assert(steps[0] == step);
        assert(steps.drop_first() =~= tail);
    }
}

} // verus!
