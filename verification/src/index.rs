//! How the rank of a move is written into a game's move buffer.
//!
//! A rank below 255 takes one byte. The byte 255 is an escape: it stands for
//! 255 that is added to the rank written after it. Nearly every rank fits in
//! one byte; a rank from 255 to 509 takes two.

use vstd::prelude::*;

verus! {

/// The byte that widens a rank beyond one byte.
pub const ESCAPE: u8 = 255;

/// The bytes that stand for `rank`.
pub open spec fn rank_bytes(rank: nat) -> Seq<u8>
    decreases rank,
{
    if rank < 255 {
        seq![rank as u8]
    } else {
        seq![ESCAPE] + rank_bytes((rank - 255) as nat)
    }
}

/// The rank at the front of `bytes`, with the number of bytes it takes;
/// `None` where `bytes` ends before the rank does.
pub open spec fn leading_rank(bytes: Seq<u8>) -> Option<(nat, nat)>
    decreases bytes.len(),
{
    if bytes.len() == 0 {
        None
    } else if bytes[0] != ESCAPE {
        Some((bytes[0] as nat, 1nat))
    } else {
        match leading_rank(bytes.skip(1)) {
            Some((rank, used)) => Some((rank + 255, used + 1)),
            None => None,
        }
    }
}

/// A rank that was read took at least one byte and no more than there were.
pub proof fn lemma_leading_rank_bounds(bytes: Seq<u8>)
    ensures
        match leading_rank(bytes) {
            Some((rank, used)) => 1 <= used <= bytes.len() && rank < 255 * used,
            None => true,
        },
    decreases bytes.len(),
{
    if bytes.len() > 0 && bytes[0] == ESCAPE {
        lemma_leading_rank_bounds(bytes.skip(1));
    }
}

/// Reading gives back the rank that was written, whatever follows it.
pub proof fn lemma_rank_roundtrip(rank: nat, rest: Seq<u8>)
    ensures
        leading_rank(rank_bytes(rank) + rest) == Some((rank, rank_bytes(rank).len())),
    decreases rank,
{
    let bytes = rank_bytes(rank) + rest;
    if rank < 255 {
        assert(bytes[0] == rank as u8);
    } else {
        let tail = rank_bytes((rank - 255) as nat);
        assert(bytes[0] == ESCAPE);
        assert(bytes.skip(1) =~= tail + rest);
        lemma_rank_roundtrip((rank - 255) as nat, rest);
        assert(rank_bytes(rank).len() == tail.len() + 1);
    }
}

/// What a run of escapes followed by another byte reads as.
proof fn lemma_escapes_then_byte(bytes: Seq<u8>, run: nat)
    requires
        run < bytes.len(),
        forall|i: int| 0 <= i < run ==> bytes[i] == ESCAPE,
        bytes[run as int] != ESCAPE,
    ensures
        leading_rank(bytes) == Some((255 * run + bytes[run as int] as nat, run + 1)),
    decreases run,
{
    if run > 0 {
        let tail = bytes.skip(1);
        assert forall|i: int| 0 <= i < run - 1 implies tail[i] == ESCAPE by {
            assert(tail[i] == bytes[i + 1]);
        }
        assert(tail[run - 1] == bytes[run as int]);
        lemma_escapes_then_byte(tail, (run - 1) as nat);
    }
}

/// A buffer of nothing but escapes holds no rank.
proof fn lemma_only_escapes(bytes: Seq<u8>)
    requires
        forall|i: int| 0 <= i < bytes.len() ==> bytes[i] == ESCAPE,
    ensures
        leading_rank(bytes) is None,
    decreases bytes.len(),
{
    if bytes.len() > 0 {
        let tail = bytes.skip(1);
        assert forall|i: int| 0 <= i < tail.len() implies tail[i] == ESCAPE by {
            assert(tail[i] == bytes[i + 1]);
        }
        lemma_only_escapes(tail);
    }
}

/// Appends the bytes of `rank` to `out`.
pub fn write_rank(out: &mut Vec<u8>, rank: usize)
    ensures
        final(out)@ == old(out)@ + rank_bytes(rank as nat),
{
    let mut left: usize = rank;
    while left >= 255
        invariant
            out@ + rank_bytes(left as nat) == old(out)@ + rank_bytes(rank as nat),
        decreases left,
    {
        proof {
            let tail = rank_bytes((left - 255) as nat);
            assert(out@.push(ESCAPE) + tail =~= out@ + (seq![ESCAPE] + tail));
        }
        out.push(ESCAPE);
        left = left - 255;
    }
    proof {
        assert(out@.push(left as u8) =~= out@ + rank_bytes(left as nat));
    }
    out.push(left as u8);
}

/// Reads the rank that starts at `bytes[at]`.
///
/// Returns the rank and the place where the next rank starts, or `None`
/// where the buffer ends before the rank does.
pub fn read_rank(bytes: &[u8], at: usize) -> (r: Option<(u128, usize)>)
    requires
        at <= bytes@.len(),
    ensures
        match r {
            Some((rank, next)) => at < next <= bytes@.len() && leading_rank(bytes@.skip(at as int))
                == Some((rank as nat, (next - at) as nat)),
            None => leading_rank(bytes@.skip(at as int)) is None,
        },
{
    let ghost rest = bytes@.skip(at as int);
    let mut j: usize = at;
    while j < bytes.len() && bytes[j] == ESCAPE
        invariant
            at <= j <= bytes@.len(),
            rest == bytes@.skip(at as int),
            forall|i: int| 0 <= i < j - at ==> rest[i] == ESCAPE,
        decreases bytes@.len() - j,
    {
        j += 1;
    }
    if j == bytes.len() {
        proof {
            lemma_only_escapes(rest);
        }
        None
    } else {
        proof {
            assert(rest[j - at] == bytes@[j as int]);
            lemma_escapes_then_byte(rest, (j - at) as nat);
        }
        let run: u128 = (j - at) as u128;
        let rank: u128 = run * 255 + bytes[j] as u128;
        Some((rank, j + 1))
    }
}

} // verus!
