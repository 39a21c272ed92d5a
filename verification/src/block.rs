//! The blocks of a game chain and their fixed-width encodings.

use vstd::prelude::*;
use crate::error::ChainError;
use crate::model::{
    decode_moves, encode_moves, AcceptView, ChainView, ChallengeView, MoveView, CHALLENGE_LEN,
    KEY_LEN, MOVE_LEN, SIGNATURE_LEN,
};
use crate::crypto::{ed25519_valid, sign, verify, KeyPair};
use crate::rules::{lemma_replay_len, lemma_replay_prefix, replay, Action, Color, Position};
use vstd::slice::slice_subrange;
use crate::wire::{
    get_array, get_u32_be, get_u64_be, lemma_u32_round_trip, lemma_u64_round_trip, put_bytes,
    put_u32_be, put_u64_be, same_bytes,
};

verus! {

/// The first block of a chain: it names the two players. It is never changed
/// once made.
#[derive(Clone, Copy, Debug, PartialEq, Eq)]
pub struct ChallengeBlock {
    version: u8,
    network_id: u8,
    id: u32,
    white_public_key: [u8; 32],
    black_public_key: [u8; 32],
    paired_game_id: u32,
    timestamp: u64,
}

impl View for ChallengeBlock {
    type V = ChallengeView;

    closed spec fn view(&self) -> ChallengeView {
        ChallengeView {
            version: self.version,
            network_id: self.network_id,
            id: self.id,
            white_public_key: self.white_public_key@,
            black_public_key: self.black_public_key@,
            paired_game_id: self.paired_game_id,
            timestamp: self.timestamp,
        }
    }
}

impl ChallengeBlock {
    /// A challenge between the holders of the two keys. The other fields are
    /// zero.
    pub fn new(white_public_key: &[u8], black_public_key: &[u8]) -> (challenge: ChallengeBlock)
        requires
            white_public_key@.len() == KEY_LEN,
            black_public_key@.len() == KEY_LEN,
        ensures
            challenge@ == (ChallengeView {
                version: 0,
                network_id: 0,
                id: 0,
                white_public_key: white_public_key@,
                black_public_key: black_public_key@,
                paired_game_id: 0,
                timestamp: 0,
            }),
    {
        let white: [u8; 32] = get_array(white_public_key, 0);
        let black: [u8; 32] = get_array(black_public_key, 0);
        assert(white@ =~= white_public_key@);
        assert(black@ =~= black_public_key@);
        ChallengeBlock {
            version: 0,
            network_id: 0,
            id: 0,
            white_public_key: white,
            black_public_key: black,
            paired_game_id: 0,
            timestamp: 0,
        }
    }

    /// Reads a challenge from the first 82 bytes; what follows them is not
    /// looked at.
    pub fn from_bytes(bytes: &[u8]) -> (decoded: Result<ChallengeBlock, ChainError>)
        ensures
            match decoded {
                Ok(challenge) => ChallengeView::decode(bytes@) == Ok::<ChallengeView, ChainError>(
                    challenge@,
                ),
                Err(e) => ChallengeView::decode(bytes@) == Err::<ChallengeView, ChainError>(e),
            },
    {
        if bytes.len() < CHALLENGE_LEN {
            return Err(ChainError::TruncatedInput);
        }
        Ok(
            ChallengeBlock {
                version: bytes[0],
                network_id: bytes[1],
                id: get_u32_be(bytes, 2),
                white_public_key: get_array(bytes, 6),
                black_public_key: get_array(bytes, 38),
                paired_game_id: get_u32_be(bytes, 70),
                timestamp: get_u64_be(bytes, 74),
            },
        )
    }

    /// The 82 bytes of the challenge.
    pub fn as_bytes(&self) -> (bytes: Vec<u8>)
        ensures
            bytes@ == self@.encode(),
            bytes@.len() == CHALLENGE_LEN,
    {
        let mut bytes: Vec<u8> = Vec::with_capacity(CHALLENGE_LEN);
        bytes.push(self.version);
        bytes.push(self.network_id);
        put_u32_be(&mut bytes, self.id);
        put_bytes(&mut bytes, &self.white_public_key);
        put_bytes(&mut bytes, &self.black_public_key);
        put_u32_be(&mut bytes, self.paired_game_id);
        put_u64_be(&mut bytes, self.timestamp);
        proof {
            lemma_u32_round_trip(self.id);
            lemma_u32_round_trip(self.paired_game_id);
            lemma_u64_round_trip(self.timestamp);
        }
        assert(bytes@ =~= self@.encode());
        bytes
    }

    /// The key of the player with the white pieces.
    pub fn white_public_key(&self) -> (key: &[u8; 32])
        ensures
            key@ == self@.white_public_key,
    {
        &self.white_public_key
    }

    /// The key of the player with the black pieces.
    pub fn black_public_key(&self) -> (key: &[u8; 32])
        ensures
            key@ == self@.black_public_key,
    {
        &self.black_public_key
    }

    /// A challenge block always holds two keys of the right length.
    pub proof fn lemma_view_wf(self)
        ensures
            self@.wf(),
    {
    }
}

/// A player's consent to the game: a signature over the encoded challenge.
/// The block does not say whose it is.
#[derive(Clone, Copy, Debug, PartialEq, Eq)]
pub struct AcceptBlock {
    pub signature: [u8; 64],
}

impl View for AcceptBlock {
    type V = AcceptView;

    open spec fn view(&self) -> AcceptView {
        AcceptView { signature: self.signature@ }
    }
}

impl AcceptBlock {
    /// The accept of the holder of `key_pair`: the signature of the pair
    /// over the encoded challenge.
    pub fn new(challenge: &ChallengeBlock, key_pair: &KeyPair) -> (accept: AcceptBlock)
        ensures
            key_pair@.wf(),
            accept@.signature == key_pair@.signature(challenge@.encode()),
            ed25519_valid(key_pair@.public_key, challenge@.encode(), accept@.signature),
    {
        let challenge_bytes = challenge.as_bytes();
        AcceptBlock { signature: sign(key_pair, challenge_bytes.as_slice()) }
    }

    /// Reads an accept from the first 64 bytes.
    pub fn from_bytes(bytes: &[u8]) -> (decoded: Result<AcceptBlock, ChainError>)
        ensures
            match decoded {
                Ok(accept) => AcceptView::decode(bytes@) == Ok::<AcceptView, ChainError>(accept@),
                Err(e) => AcceptView::decode(bytes@) == Err::<AcceptView, ChainError>(e),
            },
    {
        if bytes.len() < SIGNATURE_LEN {
            return Err(ChainError::TruncatedInput);
        }
        Ok(AcceptBlock { signature: get_array(bytes, 0) })
    }

    /// The 64 bytes of the accept.
    pub fn as_bytes(&self) -> (bytes: Vec<u8>)
        ensures
            bytes@ == self@.encode(),
            bytes@.len() == SIGNATURE_LEN,
    {
        let mut bytes: Vec<u8> = Vec::with_capacity(SIGNATURE_LEN);
        put_bytes(&mut bytes, &self.signature);
        bytes
    }
}

/// One half-move: the square a piece leaves, the square it reaches, and the
/// mover's signature over the whole chain before it and the two squares.
#[derive(Clone, Copy, Debug, PartialEq, Eq)]
pub struct MoveBlock {
    pub start_square: u8,
    pub end_square: u8,
    pub signature: [u8; 64],
}

impl View for MoveBlock {
    type V = MoveView;

    open spec fn view(&self) -> MoveView {
        MoveView {
            start_square: self.start_square,
            end_square: self.end_square,
            signature: self.signature@,
        }
    }
}

impl MoveBlock {
    /// Reads a move from the first 66 bytes.
    pub fn from_bytes(bytes: &[u8]) -> (decoded: Result<MoveBlock, ChainError>)
        ensures
            match decoded {
                Ok(block) => MoveView::decode(bytes@) == Ok::<MoveView, ChainError>(block@),
                Err(e) => MoveView::decode(bytes@) == Err::<MoveView, ChainError>(e),
            },
    {
        if bytes.len() < MOVE_LEN {
            return Err(ChainError::TruncatedInput);
        }
        Ok(
            MoveBlock {
                start_square: bytes[0],
                end_square: bytes[1],
                signature: get_array(bytes, 2),
            },
        )
    }

    /// The 66 bytes of the move.
    pub fn as_bytes(&self) -> (bytes: Vec<u8>)
        ensures
            bytes@ == self@.encode(),
            bytes@.len() == MOVE_LEN,
    {
        let mut bytes: Vec<u8> = Vec::with_capacity(MOVE_LEN);
        bytes.push(self.start_square);
        bytes.push(self.end_square);
        put_bytes(&mut bytes, &self.signature);
        assert(bytes@ =~= self@.encode());
        bytes
    }
}

/// The views of `blocks`, in the same order.
pub open spec fn move_views(blocks: Seq<MoveBlock>) -> Seq<MoveView> {
    Seq::new(blocks.len(), |i: int| blocks[i]@)
}

/// The record of one game: the challenge, up to two accepts, and the moves
/// in the order in which they were made.
#[derive(Clone, Debug, PartialEq, Eq)]
pub struct GameChain {
    pub challenge: ChallengeBlock,
    pub accepts: [Option<AcceptBlock>; 2],
    pub moves: Vec<MoveBlock>,
}

/// The view of an accept slot.
pub open spec fn slot_view(slot: Option<AcceptBlock>) -> Option<AcceptView> {
    match slot {
        Some(accept) => Some(accept@),
        None => None,
    }
}

impl View for GameChain {
    type V = ChainView;

    open spec fn view(&self) -> ChainView {
        ChainView {
            challenge: self.challenge@,
            first_accept: slot_view(self.accepts@[0]),
            second_accept: slot_view(self.accepts@[1]),
            moves: move_views(self.moves@),
        }
    }
}

impl GameChain {
    /// Every key and signature that a chain holds has its fixed length.
    pub proof fn lemma_view_wf(self)
        ensures
            self@.wf(),
    {
        self.challenge.lemma_view_wf();
    }

    /// The chain that `challenge` starts: no accepts, no moves.
    pub fn new(challenge: ChallengeBlock) -> (chain: GameChain)
        ensures
            chain@ == ChainView::start(challenge@),
    {
        let chain = GameChain { challenge, accepts: [None, None], moves: Vec::new() };
        assert(chain@.moves =~= Seq::empty());
        chain
    }

    /// Reads a chain. Fewer than 82 bytes are an error. After the challenge
    /// come the accepts, as far as the bytes reach, and after two accepts
    /// the moves; bytes that do not fill a block are left unread.
    pub fn from_bytes(bytes: &[u8]) -> (decoded: Result<GameChain, ChainError>)
        ensures
            match decoded {
                Ok(chain) => ChainView::decode(bytes@) == Ok::<ChainView, ChainError>(chain@),
                Err(e) => ChainView::decode(bytes@) == Err::<ChainView, ChainError>(e),
            },
    {
        let challenge = match ChallengeBlock::from_bytes(bytes) {
            Ok(challenge) => challenge,
            Err(e) => { return Err(e); },
        };
        let len = bytes.len();
        let mut chain = GameChain::new(challenge);
        assert(chain.moves@.len() == move_views(chain.moves@).len());
        match AcceptBlock::from_bytes(slice_subrange(bytes, CHALLENGE_LEN, len)) {
            Ok(accept) => { chain.accepts[0] = Some(accept); },
            Err(_) => { return Ok(chain); },
        }
        let second_at: usize = CHALLENGE_LEN + SIGNATURE_LEN;
        assert(bytes@.skip(CHALLENGE_LEN as int) =~= bytes@.subrange(
            CHALLENGE_LEN as int,
            len as int,
        ));
        match AcceptBlock::from_bytes(slice_subrange(bytes, second_at, len)) {
            Ok(accept) => { chain.accepts[1] = Some(accept); },
            Err(_) => {
                assert(bytes@.skip(second_at as int) =~= bytes@.subrange(
                    second_at as int,
                    len as int,
                ));
                assert(chain@.moves =~= Seq::empty());
                return Ok(chain);
            },
        }
        assert(bytes@.skip(second_at as int) =~= bytes@.subrange(second_at as int, len as int));
        let moves_at: usize = second_at + SIGNATURE_LEN;
        let ghost tail = bytes@.skip(moves_at as int);
        let ghost accepts = chain.accepts;
        let count: usize = (len - moves_at) / MOVE_LEN;
        let mut n: usize = 0;
        while n < count
            invariant
                n <= count,
                len == bytes@.len(),
                moves_at == CHALLENGE_LEN + SIGNATURE_LEN + SIGNATURE_LEN,
                moves_at <= len,
                count == (len - moves_at) / MOVE_LEN as int,
                tail == bytes@.skip(moves_at as int),
                chain.challenge@ == challenge@,
                chain.accepts == accepts,
                chain.moves@.len() == n,
                decode_moves(tail).len() == count,
                move_views(chain.moves@) == decode_moves(tail).take(n as int),
            decreases count - n,
        {
            let at: usize = moves_at + n * MOVE_LEN;
            let block = match MoveBlock::from_bytes(slice_subrange(bytes, at, len)) {
                Ok(block) => block,
                Err(_) => { return Err(ChainError::TruncatedInput); },
            };
            let ghost before = chain.moves@;
            chain.moves.push(block);
            proof {
                let record = bytes@.subrange(at as int, len as int);
                assert(block@.signature =~= tail.subrange(
                    MOVE_LEN * n + 2,
                    MOVE_LEN * n + MOVE_LEN,
                ));
                assert(record[0] == tail[MOVE_LEN * n]);
                assert(record[1] == tail[MOVE_LEN * n + 1]);
                assert(decode_moves(tail)[n as int] == block@);
                assert(chain.moves@ == before.push(block));
                assert forall|j: int| 0 <= j < n + 1 implies move_views(chain.moves@)[j]
                    == decode_moves(tail).take(n + 1)[j] by {
                    if j < n {
                        assert(move_views(before)[j] == decode_moves(tail).take(n as int)[j]);
                        assert(chain.moves@[j] == before[j]);
                    } else {
                        assert(chain.moves@[j] == block);
                    }
                }
                assert(move_views(chain.moves@) =~= decode_moves(tail).take(n + 1));
            }
            n += 1;
        }
        assert(decode_moves(tail).take(n as int) =~= decode_moves(tail));
        Ok(chain)
    }

    /// The bytes of the chain. They end where a part is absent: without a
    /// first accept nothing follows the challenge, and without a second
    /// nothing follows the first.
    pub fn as_bytes(&self) -> (bytes: Vec<u8>)
        ensures
            bytes@ == self@.encode(),
    {
        let mut bytes = self.challenge.as_bytes();
        match self.accepts[0] {
            None => { return bytes; },
            Some(first) => { put_bytes(&mut bytes, &first.signature); },
        }
        match self.accepts[1] {
            None => { return bytes; },
            Some(second) => { put_bytes(&mut bytes, &second.signature); },
        }
        let ghost head = bytes@;
        let ghost views = self@.moves;
        let mut i: usize = 0;
        assert(views.take(0) =~= Seq::empty());
        while i < self.moves.len()
            invariant
                i <= self.moves.len(),
                views == move_views(self.moves@),
                bytes@ == head + encode_moves(views.take(i as int)),
            decreases self.moves.len() - i,
        {
            let block = &self.moves[i];
            bytes.push(block.start_square);
            bytes.push(block.end_square);
            put_bytes(&mut bytes, &block.signature);
            proof {
                let next = views.take(i + 1);
                assert(next.drop_last() =~= views.take(i as int));
                assert(next.last() == block@);
                assert(bytes@ =~= head + encode_moves(next));
            }
            i += 1;
        }
        assert(views.take(i as int) =~= views);
        bytes
    }

    /// The position that the recorded moves lead to: each pair of squares is
    /// played as the first legal move between them. A pair that no legal
    /// move joins makes the chain inconsistent.
    pub fn get_game(&self) -> (game: Result<Position, ChainError>)
        ensures
            match game {
                Ok(position) => replay(self@.squares()) == Some(position@),
                Err(e) => e == ChainError::InconsistentChain && replay(self@.squares()) is None,
            },
    {
        let ghost squares = self@.squares();
        let mut position = Position::start();
        let mut i: usize = 0;
        assert(squares.take(0) =~= Seq::empty());
        while i < self.moves.len()
            invariant
                i <= self.moves.len(),
                squares == self@.squares(),
                squares.len() == self.moves@.len(),
                replay(squares.take(i as int)) == Some(position@),
            decreases self.moves.len() - i,
        {
            let block = &self.moves[i];
            let played = position.play(block.start_square, block.end_square);
            proof {
                let next = squares.take(i + 1);
                assert(next.drop_last() =~= squares.take(i as int));
                assert(next.last() == (block.start_square, block.end_square));
                if !played {
                    assert(replay(next) is None);
                    if replay(squares) is Some {
                        lemma_replay_prefix(squares, i + 1);
                    }
                }
            }
            if !played {
                return Err(ChainError::InconsistentChain);
            }
            i += 1;
        }
        assert(squares.take(i as int) =~= squares);
        Ok(position)
    }

    /// Records the consent of the holder of `key_pair`. The key must be one
    /// of the two in the challenge, must not have accepted already, and a
    /// slot must be free. Which of the two players accepts first does not
    /// matter.
    pub fn accept(&mut self, key_pair: &KeyPair) -> (accepted: Result<(), ChainError>)
        ensures
            key_pair@.wf(),
            accepted == old(self)@.accept_outcome(key_pair@),
            final(self)@ == old(self)@.after_accept(key_pair@),
    {
        let public_key = key_pair.public_key();
        if !same_bytes(public_key, &self.challenge.white_public_key) && !same_bytes(
            public_key,
            &self.challenge.black_public_key,
        ) {
            return Err(ChainError::KeyNotInChallenge);
        }
        if self.accepts[0].is_none() && self.accepts[1].is_some() {
            self.accepts[0] = self.accepts[1];
            self.accepts[1] = None;
        }
        match self.accepts[0] {
            None => {
                self.accepts[0] = Some(AcceptBlock::new(&self.challenge, key_pair));
                Ok(())
            },
            Some(first) => {
                if self.accepts[1].is_some() {
                    return Err(ChainError::ChainFull);
                }
                let challenge_bytes = self.challenge.as_bytes();
                if verify(public_key, challenge_bytes.as_slice(), &first.signature) {
                    return Err(ChainError::DuplicateKey);
                }
                self.accepts[1] = Some(AcceptBlock::new(&self.challenge, key_pair));
                Ok(())
            },
        }
    }

    /// Appends the move in `action`, signed by `key_pair` over the bytes of
    /// the chain and the two squares of the move. The key must be that of
    /// the side to move, and the move must be legal in the position that the
    /// recorded moves lead to. On an error the chain is unchanged.
    pub fn make_move_block(&mut self, key_pair: &KeyPair, action: Action) -> (appended: Result<
        (),
        ChainError,
    >)
        ensures
            key_pair@.wf(),
            appended == old(self)@.append_outcome(key_pair@, action),
            final(self)@ == old(self)@.after_append(key_pair@, action),
    {
        let public_key = key_pair.public_key();
        let position = match self.get_game() {
            Ok(position) => position,
            Err(e) => { return Err(e); },
        };
        proof {
            lemma_replay_len(self@.squares());
        }
        let mover_is_signer = match position.side_to_move() {
            Color::White => same_bytes(&self.challenge.white_public_key, public_key),
            Color::Black => same_bytes(&self.challenge.black_public_key, public_key),
        };
        if !mover_is_signer {
            return Err(ChainError::WrongSigner);
        }
        match action {
            Action::MakeMove(m) => {
                if !position.legal(m) {
                    return Err(ChainError::IllegalMove);
                }
                let mut chain_bytes = self.as_bytes();
                chain_bytes.push(m.source);
                chain_bytes.push(m.dest);
                assert(chain_bytes@ =~= self@.encode() + seq![m.source, m.dest]);
                let signature = sign(key_pair, chain_bytes.as_slice());
                let block = MoveBlock { start_square: m.source, end_square: m.dest, signature };
                let ghost before = self@;
                self.moves.push(block);
                assert(self@.moves =~= before.moves.push(before.block_by(key_pair@, m)));
                Ok(())
            },
            _ => Err(ChainError::UnsupportedAction),
        }
    }

    /// Whether the chain is authentic: both players have accepted, one
    /// accept valid under each key of the challenge in either order of the
    /// slots, and every move signed by the player whose turn it was, over
    /// the bytes of the chain before it and its own two squares.
    pub fn verify(&self) -> (valid: bool)
        ensures
            valid == self@.verifies(),
    {
        let (first, second) = match (self.accepts[0], self.accepts[1]) {
            (Some(first), Some(second)) => (first, second),
            _ => { return false; },
        };
        let mut bytes = self.challenge.as_bytes();
        let white = &self.challenge.white_public_key;
        let black = &self.challenge.black_public_key;
        let in_order = verify(white, bytes.as_slice(), &first.signature) && verify(
            black,
            bytes.as_slice(),
            &second.signature,
        );
        let swapped = verify(white, bytes.as_slice(), &second.signature) && verify(
            black,
            bytes.as_slice(),
            &first.signature,
        );
        if !(in_order || swapped) {
            return false;
        }
        assert(self@.accepts_signed());
        put_bytes(&mut bytes, &first.signature);
        put_bytes(&mut bytes, &second.signature);
        let ghost chain = self@;
        assert(chain.truncate(0).moves =~= Seq::empty());
        let mut i: usize = 0;
        while i < self.moves.len()
            invariant
                i <= self.moves.len(),
                chain == self@,
                chain.accepts_signed(),
                chain.moves.len() == self.moves@.len(),
                white@ == chain.challenge.white_public_key,
                black@ == chain.challenge.black_public_key,
                bytes@ == chain.truncate(i as int).encode(),
                forall|j: int| 0 <= j < i ==> #[trigger] chain.move_signed(j),
            decreases self.moves.len() - i,
        {
            let block = &self.moves[i];
            bytes.push(block.start_square);
            bytes.push(block.end_square);
            assert(bytes@ =~= chain.signed_bytes(i as int));
            let key = if i % 2 == 0 {
                white
            } else {
                black
            };
            assert(key@ == chain.mover_key(i as int));
            assert(chain.moves[i as int] == block@);
            let signed = verify(key, bytes.as_slice(), &block.signature);
            assert(signed == chain.move_signed(i as int));
            if !signed {
                return false;
            }
            put_bytes(&mut bytes, &block.signature);
            proof {
                let next = chain.moves.take(i + 1);
                assert(next.drop_last() =~= chain.moves.take(i as int));
                assert(next.last() == block@);
                assert(bytes@ =~= chain.truncate(i + 1).encode());
            }
            i += 1;
        }
        true
    }
}

} // verus!
