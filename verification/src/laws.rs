//! What holds of every chain: that decoding undoes encoding, how accepts
//! and signatures decide whether a chain is authentic, and what a signature
//! binds.

use vstd::prelude::*;
use crate::crypto::KeyView;
use crate::error::ChainError;
use crate::model::{
    decode_moves, encode_moves, AcceptView, ChainView, ChallengeView, MoveView, CHALLENGE_LEN,
    MOVE_LEN, SIGNATURE_LEN,
};
use crate::rules::Color;
use crate::wire::{lemma_u32_round_trip, lemma_u64_round_trip, u32_be, u64_be};

verus! {

/// An encoded challenge has 82 bytes.
pub proof fn lemma_challenge_len(challenge: ChallengeView)
    requires
        challenge.wf(),
    ensures
        challenge.encode().len() == CHALLENGE_LEN,
{
    lemma_u32_round_trip(challenge.id);
    lemma_u32_round_trip(challenge.paired_game_id);
    lemma_u64_round_trip(challenge.timestamp);
}

/// Decoding reads a challenge back from its encoding, whatever bytes follow
/// it.
pub proof fn lemma_challenge_decode_prefix(challenge: ChallengeView, rest: Seq<u8>)
    requires
        challenge.wf(),
    ensures
        ChallengeView::decode(challenge.encode() + rest) == Ok::<ChallengeView, ChainError>(
            challenge,
        ),
{
    lemma_challenge_len(challenge);
    lemma_u32_round_trip(challenge.id);
    lemma_u32_round_trip(challenge.paired_game_id);
    lemma_u64_round_trip(challenge.timestamp);
    let bytes = challenge.encode() + rest;
    assert(bytes.subrange(2, 6) =~= u32_be(challenge.id));
    assert(bytes.subrange(6, 38) =~= challenge.white_public_key);
    assert(bytes.subrange(38, 70) =~= challenge.black_public_key);
    assert(bytes.subrange(70, 74) =~= u32_be(challenge.paired_game_id));
    assert(bytes.subrange(74, 82) =~= u64_be(challenge.timestamp));
}

/// Decoding undoes encoding: every challenge with keys of 32 bytes comes
/// back from its bytes as it was.
pub proof fn lemma_challenge_round_trip(challenge: ChallengeView)
    requires
        challenge.wf(),
    ensures
        ChallengeView::decode(challenge.encode()) == Ok::<ChallengeView, ChainError>(challenge),
{
    lemma_challenge_decode_prefix(challenge, Seq::empty());
    assert(challenge.encode() + Seq::<u8>::empty() =~= challenge.encode());
}

/// The encoding of `n` moves has `66 * n` bytes, and the bytes of move
/// number `j` start at `66 * j`.
pub proof fn lemma_encode_moves_layout(moves: Seq<MoveView>, j: int)
    requires
        forall|i: int| 0 <= i < moves.len() ==> (#[trigger] moves[i]).wf(),
        0 <= j < moves.len(),
    ensures
        encode_moves(moves).len() == MOVE_LEN * moves.len(),
        encode_moves(moves).subrange(MOVE_LEN * j, MOVE_LEN * j + MOVE_LEN) == moves[j].encode(),
    decreases moves.len(),
{
    let front = moves.drop_last();
    lemma_encode_moves_len(front);
    assert(moves.last().wf());
    if j < front.len() {
        lemma_encode_moves_layout(front, j);
        assert(encode_moves(moves).subrange(MOVE_LEN * j, MOVE_LEN * j + MOVE_LEN)
            =~= encode_moves(front).subrange(MOVE_LEN * j, MOVE_LEN * j + MOVE_LEN));
    } else {
        assert(encode_moves(moves).subrange(MOVE_LEN * j, MOVE_LEN * j + MOVE_LEN)
            =~= moves.last().encode());
    }
}

/// The encoding of `n` moves has `66 * n` bytes.
pub proof fn lemma_encode_moves_len(moves: Seq<MoveView>)
    requires
        forall|i: int| 0 <= i < moves.len() ==> (#[trigger] moves[i]).wf(),
    ensures
        encode_moves(moves).len() == MOVE_LEN * moves.len(),
    decreases moves.len(),
{
    if moves.len() > 0 {
        lemma_encode_moves_len(moves.drop_last());
        assert(moves.last().wf());
    }
}

/// Decoding undoes encoding for a list of moves.
pub proof fn lemma_moves_round_trip(moves: Seq<MoveView>)
    requires
        forall|i: int| 0 <= i < moves.len() ==> (#[trigger] moves[i]).wf(),
    ensures
        decode_moves(encode_moves(moves)) == moves,
{
    let bytes = encode_moves(moves);
    lemma_encode_moves_len(moves);
    assert(decode_moves(bytes).len() == moves.len());
    assert forall|j: int| 0 <= j < moves.len() implies decode_moves(bytes)[j] == moves[j] by {
        lemma_encode_moves_layout(moves, j);
        let record = bytes.subrange(MOVE_LEN * j, MOVE_LEN * j + MOVE_LEN);
        assert(moves[j].wf());
        assert(record[0] == bytes[MOVE_LEN * j]);
        assert(record[1] == bytes[MOVE_LEN * j + 1]);
        assert(bytes.subrange(MOVE_LEN * j + 2, MOVE_LEN * j + MOVE_LEN) =~= record.subrange(
            2,
            66,
        ));
        assert(record.subrange(2, 66) =~= moves[j].signature);
        assert(record[0] == moves[j].start_square);
        assert(record[1] == moves[j].end_square);
    }
    assert(decode_moves(bytes) =~= moves);
}

/// How a chain is read from bytes that begin with 82 bytes of a challenge,
/// two accepts and encoded moves.
proof fn lemma_decode_accepted(
    head: Seq<u8>,
    challenge: ChallengeView,
    first: AcceptView,
    second: AcceptView,
    moves: Seq<MoveView>,
)
    requires
        head.len() == CHALLENGE_LEN,
        first.wf(),
        second.wf(),
        ChallengeView::decode(head + first.signature + second.signature + encode_moves(moves))
            == Ok::<ChallengeView, ChainError>(challenge),
    ensures
        ChainView::decode(head + first.signature + second.signature + encode_moves(moves)) == Ok::<
            ChainView,
            ChainError,
        >(
            ChainView {
                challenge,
                first_accept: Some(first),
                second_accept: Some(second),
                moves: decode_moves(encode_moves(moves)),
            },
        ),
{
    let tail = encode_moves(moves);
    let bytes = head + first.signature + second.signature + tail;
    assert(bytes.skip(CHALLENGE_LEN as int).subrange(0, 64) =~= first.signature);
    assert(bytes.skip(CHALLENGE_LEN + SIGNATURE_LEN).subrange(0, 64) =~= second.signature);
    assert(bytes.skip(CHALLENGE_LEN + SIGNATURE_LEN + SIGNATURE_LEN) =~= tail);
}

/// Decoding undoes encoding: every chain in which both players have
/// accepted comes back from its bytes as it was, with all its moves.
pub proof fn lemma_chain_round_trip(chain: ChainView)
    requires
        chain.wf(),
        chain.accepted(),
    ensures
        ChainView::decode(chain.encode()) == Ok::<ChainView, ChainError>(chain),
{
    let first = chain.first_accept->Some_0;
    let second = chain.second_accept->Some_0;
    let tail = encode_moves(chain.moves);
    let head = chain.challenge.encode();
    lemma_challenge_len(chain.challenge);
    lemma_challenge_decode_prefix(chain.challenge, first.signature + second.signature + tail);
    assert(head + first.signature + second.signature + tail =~= head + (first.signature
        + second.signature + tail));
    lemma_decode_accepted(head, chain.challenge, first, second, chain.moves);
    lemma_moves_round_trip(chain.moves);
}

/// Decoding undoes encoding for a chain that is still waiting for accepts:
/// one without moves, whose second slot is empty.
pub proof fn lemma_open_chain_round_trip(chain: ChainView)
    requires
        chain.wf(),
        chain.second_accept is None,
        chain.moves.len() == 0,
    ensures
        ChainView::decode(chain.encode()) == Ok::<ChainView, ChainError>(chain),
{
    let bytes = chain.encode();
    lemma_challenge_len(chain.challenge);
    assert(chain.moves =~= Seq::empty());
    match chain.first_accept {
        None => {
            lemma_challenge_round_trip(chain.challenge);
        },
        Some(first) => {
            lemma_challenge_decode_prefix(chain.challenge, first.encode());
            assert(bytes.skip(CHALLENGE_LEN as int).subrange(0, 64) =~= first.signature);
        },
    }
}

/// A key cannot accept twice. After an accept that went through on a chain
/// without accepts, the same key is refused as a duplicate.
pub proof fn lemma_second_accept_is_duplicate(chain: ChainView, key: KeyView)
    requires
        key.wf(),
        chain.first_accept is None,
        chain.second_accept is None,
        chain.accept_outcome(key) is Ok,
    ensures
        chain.after_accept(key).accept_outcome(key) == Err::<(), ChainError>(
            ChainError::DuplicateKey,
        ),
        chain.after_accept(key).after_accept(key) == chain.after_accept(key),
{
}

/// A key cannot accept twice, whatever the chain held before: once an accept
/// of the key has gone through, the key is refused, and the chain stays as
/// it is.
pub proof fn lemma_second_accept_refused(chain: ChainView, key: KeyView)
    requires
        key.wf(),
        chain.accept_outcome(key) is Ok,
    ensures
        chain.after_accept(key).accept_outcome(key) is Err,
        chain.after_accept(key).after_accept(key) == chain.after_accept(key),
{
}

/// The order of the accepts does not matter. Let the two keys of the
/// challenge accept a fresh chain one after the other, in either order:
/// where both accepts go through, the chain is authentic.
pub proof fn lemma_accept_order_independent(
    challenge: ChallengeView,
    earlier: KeyView,
    later: KeyView,
)
    requires
        earlier.wf(),
        later.wf(),
        earlier.public_key == challenge.white_public_key && later.public_key
            == challenge.black_public_key || earlier.public_key == challenge.black_public_key
            && later.public_key == challenge.white_public_key,
        ChainView::start(challenge).after_accept(earlier).accept_outcome(later) is Ok,
    ensures
        ChainView::start(challenge).accept_outcome(earlier) is Ok,
        ChainView::start(challenge).after_accept(earlier).after_accept(later).verifies(),
{
    let fresh = ChainView::start(challenge);
    let one = fresh.after_accept(earlier);
    let two = one.after_accept(later);
    let first = two.first_accept->Some_0;
    let second = two.second_accept->Some_0;
    assert(first == fresh.accept_by(earlier));
    assert(second == fresh.accept_by(later));
    if earlier.public_key == challenge.white_public_key && later.public_key
        == challenge.black_public_key {
        assert(two.accept_signed(first, Color::White));
        assert(two.accept_signed(second, Color::Black));
    } else {
        assert(two.accept_signed(second, Color::White));
        assert(two.accept_signed(first, Color::Black));
    }
}

/// A chain with fewer than two accepts is not authentic.
pub proof fn lemma_unaccepted_never_verifies(chain: ChainView)
    requires
        !chain.accepted(),
    ensures
        !chain.verifies(),
{
}

/// An accept that is valid under neither key of the challenge makes the
/// whole chain fail, whichever slot it is in.
pub proof fn lemma_invalid_accept_fails(chain: ChainView, accept: AcceptView)
    requires
        chain.first_accept == Some(accept) || chain.second_accept == Some(accept),
        !chain.accept_signed(accept, Color::White),
        !chain.accept_signed(accept, Color::Black),
    ensures
        !chain.verifies(),
{
}

/// One signature that is not valid makes the whole chain fail: a chain with
/// a move whose signature is not valid for the bytes it covers is not
/// authentic, whatever the other blocks hold.
pub proof fn lemma_invalid_move_signature_fails(chain: ChainView, i: int)
    requires
        0 <= i < chain.moves.len(),
        !chain.move_signed(i),
    ensures
        !chain.verifies(),
{
}

/// A chain whose two slots hold the same accept is authentic only if that
/// one signature is valid under the white key and under the black key.
pub proof fn lemma_same_accept_needs_both_keys(chain: ChainView)
    requires
        chain.accepted(),
        chain.first_accept == chain.second_accept,
        chain.verifies(),
    ensures
        chain.accept_signed(chain.first_accept->Some_0, Color::White),
        chain.accept_signed(chain.first_accept->Some_0, Color::Black),
{
}

/// A move's signature binds all that came before it. If the bytes that the
/// signatures of move number `i` cover are the same in two accepted chains,
/// the two chains agree on the challenge, on both accepts, on every move
/// before `i` with its signature, and on the squares of move `i`.
pub proof fn lemma_signature_binds_history(a: ChainView, b: ChainView, i: int)
    requires
        a.wf(),
        b.wf(),
        a.accepted(),
        b.accepted(),
        0 <= i < a.moves.len(),
        0 <= i < b.moves.len(),
        a.signed_bytes(i) == b.signed_bytes(i),
    ensures
        a.truncate(i) == b.truncate(i),
        a.moves[i].squares() == b.moves[i].squares(),
{
    let pa = a.truncate(i);
    let pb = b.truncate(i);
    lemma_chain_len(pa);
    lemma_chain_len(pb);
    let n = pa.encode().len() as int;
    assert(a.signed_bytes(i).subrange(0, n) =~= pa.encode());
    assert(b.signed_bytes(i).subrange(0, n) =~= pb.encode());
    assert(a.signed_bytes(i).subrange(n, n + 2) =~= a.moves[i].squares());
    assert(b.signed_bytes(i).subrange(n, n + 2) =~= b.moves[i].squares());
    lemma_chain_round_trip(pa);
    lemma_chain_round_trip(pb);
}

/// The encoding of an accepted chain with `n` moves has `210 + 66 * n`
/// bytes.
pub proof fn lemma_chain_len(chain: ChainView)
    requires
        chain.wf(),
        chain.accepted(),
    ensures
        chain.encode().len() == CHALLENGE_LEN + 2 * SIGNATURE_LEN + MOVE_LEN * chain.moves.len(),
{
    lemma_challenge_len(chain.challenge);
    lemma_encode_moves_len(chain.moves);
}

} // verus!
