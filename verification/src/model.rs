//! What the blocks and the chain say, as plain mathematical values, and the
//! byte format that carries them.

use vstd::prelude::*;
use crate::crypto::{ed25519_valid, KeyView};
use crate::error::ChainError;
use crate::rules::{legal_moves_after, replay, side_after, Action, Color, Move};
use crate::wire::{u32_be, u32_from_be, u64_be, u64_from_be};

verus! {

/// The length of an encoded challenge.
pub const CHALLENGE_LEN: usize = 82;

/// The length of a public key.
pub const KEY_LEN: usize = 32;

/// The length of a signature, which is also that of an encoded accept.
pub const SIGNATURE_LEN: usize = 64;

/// The length of an encoded move: two squares and a signature.
pub const MOVE_LEN: usize = 66;

/// What a challenge says.
pub struct ChallengeView {
    pub version: u8,
    pub network_id: u8,
    pub id: u32,
    pub white_public_key: Seq<u8>,
    pub black_public_key: Seq<u8>,
    pub paired_game_id: u32,
    pub timestamp: u64,
}

impl ChallengeView {
    /// Both keys have the length of a public key.
    pub open spec fn wf(self) -> bool {
        &&& self.white_public_key.len() == KEY_LEN
        &&& self.black_public_key.len() == KEY_LEN
    }

    /// The encoding: the fields in the order of their declaration, integers
    /// big-endian.
    pub open spec fn encode(self) -> Seq<u8> {
        seq![self.version, self.network_id] + u32_be(self.id) + self.white_public_key
            + self.black_public_key + u32_be(self.paired_game_id) + u64_be(self.timestamp)
    }

    /// The challenge at the start of `bytes`, where there are enough of them.
    pub open spec fn decode(bytes: Seq<u8>) -> Result<ChallengeView, ChainError> {
        if bytes.len() < CHALLENGE_LEN {
            Err(ChainError::TruncatedInput)
        } else {
            Ok(
                ChallengeView {
                    version: bytes[0],
                    network_id: bytes[1],
                    id: u32_from_be(bytes.subrange(2, 6)),
                    white_public_key: bytes.subrange(6, 38),
                    black_public_key: bytes.subrange(38, 70),
                    paired_game_id: u32_from_be(bytes.subrange(70, 74)),
                    timestamp: u64_from_be(bytes.subrange(74, 82)),
                },
            )
        }
    }
}

/// What an accept says: the signature of one player over the challenge.
pub struct AcceptView {
    pub signature: Seq<u8>,
}

impl AcceptView {
    /// The signature has the length of a signature.
    pub open spec fn wf(self) -> bool {
        self.signature.len() == SIGNATURE_LEN
    }

    /// The encoding: the signature.
    pub open spec fn encode(self) -> Seq<u8> {
        self.signature
    }

    /// The accept at the start of `bytes`, where there are enough of them.
    pub open spec fn decode(bytes: Seq<u8>) -> Result<AcceptView, ChainError> {
        if bytes.len() < SIGNATURE_LEN {
            Err(ChainError::TruncatedInput)
        } else {
            Ok(AcceptView { signature: bytes.subrange(0, 64) })
        }
    }
}

/// What a move block says.
pub struct MoveView {
    pub start_square: u8,
    pub end_square: u8,
    pub signature: Seq<u8>,
}

impl MoveView {
    /// The signature has the length of a signature.
    pub open spec fn wf(self) -> bool {
        self.signature.len() == SIGNATURE_LEN
    }

    /// The two squares, which are the part of the block that its own
    /// signature covers.
    pub open spec fn squares(self) -> Seq<u8> {
        seq![self.start_square, self.end_square]
    }

    /// The encoding: the two squares, then the signature.
    pub open spec fn encode(self) -> Seq<u8> {
        self.squares() + self.signature
    }

    /// The move at the start of `bytes`, where there are enough of them.
    pub open spec fn decode(bytes: Seq<u8>) -> Result<MoveView, ChainError> {
        if bytes.len() < MOVE_LEN {
            Err(ChainError::TruncatedInput)
        } else {
            Ok(
                MoveView {
                    start_square: bytes[0],
                    end_square: bytes[1],
                    signature: bytes.subrange(2, 66),
                },
            )
        }
    }
}

/// The bytes of `moves`, one encoded move after the other.
pub open spec fn encode_moves(moves: Seq<MoveView>) -> Seq<u8>
    decreases moves.len(),
{
    if moves.len() == 0 {
        Seq::empty()
    } else {
        encode_moves(moves.drop_last()) + moves.last().encode()
    }
}

/// The moves that `bytes` hold: as many as there are whole groups of 66
/// bytes. What is left over at the end is not looked at.
pub open spec fn decode_moves(bytes: Seq<u8>) -> Seq<MoveView> {
    Seq::new(
        (bytes.len() / MOVE_LEN as nat) as nat,
        |i: int|
            MoveView {
                start_square: bytes[MOVE_LEN * i],
                end_square: bytes[MOVE_LEN * i + 1],
                signature: bytes.subrange(MOVE_LEN * i + 2, MOVE_LEN * i + MOVE_LEN),
            },
    )
}

/// What a chain says: the challenge, the two accept slots, the moves in the
/// order in which they were made.
pub struct ChainView {
    pub challenge: ChallengeView,
    pub first_accept: Option<AcceptView>,
    pub second_accept: Option<AcceptView>,
    pub moves: Seq<MoveView>,
}

impl ChainView {
    /// Every key and signature in the chain has its fixed length.
    pub open spec fn wf(self) -> bool {
        &&& self.challenge.wf()
        &&& self.first_accept matches Some(accept) ==> accept.wf()
        &&& self.second_accept matches Some(accept) ==> accept.wf()
        &&& forall|i: int| 0 <= i < self.moves.len() ==> (#[trigger] self.moves[i]).wf()
    }

    /// The chain that a challenge starts: no accepts, no moves.
    pub open spec fn start(challenge: ChallengeView) -> ChainView {
        ChainView {
            challenge,
            first_accept: None,
            second_accept: None,
            moves: Seq::empty(),
        }
    }

    /// Both players have accepted.
    pub open spec fn accepted(self) -> bool {
        self.first_accept is Some && self.second_accept is Some
    }

    /// The chain with only its first `n` moves.
    pub open spec fn truncate(self, n: int) -> ChainView {
        ChainView { moves: self.moves.take(n), ..self }
    }

    /// The encoding: the challenge, the first accept, the second accept, the
    /// moves. It ends where a part is absent: without a first accept nothing
    /// follows the challenge, and without a second nothing follows the first.
    pub open spec fn encode(self) -> Seq<u8> {
        match (self.first_accept, self.second_accept) {
            (None, _) => self.challenge.encode(),
            (Some(first), None) => self.challenge.encode() + first.encode(),
            (Some(first), Some(second)) => self.challenge.encode() + first.encode()
                + second.encode() + encode_moves(self.moves),
        }
    }

    /// The chain that `bytes` hold. Only a missing or short challenge is an
    /// error: after it the accepts are read as far as the bytes reach, and
    /// after two accepts the moves.
    pub open spec fn decode(bytes: Seq<u8>) -> Result<ChainView, ChainError> {
        match ChallengeView::decode(bytes) {
            Err(e) => Err(e),
            Ok(challenge) => match AcceptView::decode(bytes.skip(CHALLENGE_LEN as int)) {
                Err(_) => Ok(ChainView::start(challenge)),
                Ok(first) => match AcceptView::decode(
                    bytes.skip(CHALLENGE_LEN + SIGNATURE_LEN),
                ) {
                    Err(_) => Ok(
                        ChainView { first_accept: Some(first), ..ChainView::start(challenge) },
                    ),
                    Ok(second) => Ok(
                        ChainView {
                            challenge,
                            first_accept: Some(first),
                            second_accept: Some(second),
                            moves: decode_moves(
                                bytes.skip(CHALLENGE_LEN + SIGNATURE_LEN + SIGNATURE_LEN),
                            ),
                        },
                    ),
                },
            },
        }
    }

    /// The squares of the moves, in order.
    pub open spec fn squares(self) -> Seq<(u8, u8)> {
        Seq::new(self.moves.len(), |i: int| (self.moves[i].start_square, self.moves[i].end_square))
    }

    /// The key of the given side.
    pub open spec fn key_of(self, side: Color) -> Seq<u8> {
        match side {
            Color::White => self.challenge.white_public_key,
            Color::Black => self.challenge.black_public_key,
        }
    }

    /// The key that has to sign move number `i`: white's for the first move,
    /// then black's and white's in turn.
    pub open spec fn mover_key(self, i: int) -> Seq<u8> {
        self.key_of(side_after(i as nat))
    }

    /// The bytes that the signature of move number `i` covers: the encoding
    /// of the chain up to that move, then the two squares of the move.
    pub open spec fn signed_bytes(self, i: int) -> Seq<u8> {
        self.truncate(i).encode() + self.moves[i].squares()
    }

    /// The signature of move number `i` is valid for the bytes it covers,
    /// under the key of the side whose turn it is.
    pub open spec fn move_signed(self, i: int) -> bool {
        ed25519_valid(self.mover_key(i), self.signed_bytes(i), self.moves[i].signature)
    }

    /// `accept` is a valid signature of the challenge under the key of `side`.
    pub open spec fn accept_signed(self, accept: AcceptView, side: Color) -> bool {
        ed25519_valid(self.key_of(side), self.challenge.encode(), accept.signature)
    }

    /// Both slots are filled, and one accept is white's and the other
    /// black's, whichever slot each is in.
    pub open spec fn accepts_signed(self) -> bool {
        &&& self.first_accept matches Some(first)
        &&& self.second_accept matches Some(second)
        &&& {
            ||| self.accept_signed(first, Color::White) && self.accept_signed(second, Color::Black)
            ||| self.accept_signed(second, Color::White) && self.accept_signed(first, Color::Black)
        }
    }

    /// The chain is authentic: both players have accepted, and every move
    /// is signed by the player whose turn it was, over all that came before
    /// it.
    pub open spec fn verifies(self) -> bool {
        &&& self.accepts_signed()
        &&& forall|i: int| 0 <= i < self.moves.len() ==> #[trigger] self.move_signed(i)
    }

    /// The chain with a lone accept moved to the first slot.
    pub open spec fn normalize(self) -> ChainView {
        if self.first_accept is None && self.second_accept is Some {
            ChainView { first_accept: self.second_accept, second_accept: None, ..self }
        } else {
            self
        }
    }

    /// The accept that `key` makes for this chain: its signature over the
    /// encoded challenge.
    pub open spec fn accept_by(self, key: KeyView) -> AcceptView {
        AcceptView { signature: key.signature(self.challenge.encode()) }
    }

    /// Whether `key` may accept, and the error if it may not. A key that the
    /// challenge does not name is refused; so is one under which the accept
    /// in the first slot is already valid; so is any key once both slots are
    /// filled.
    pub open spec fn accept_outcome(self, key: KeyView) -> Result<(), ChainError> {
        let chain = self.normalize();
        if key.public_key != self.challenge.white_public_key && key.public_key
            != self.challenge.black_public_key {
            Err(ChainError::KeyNotInChallenge)
        } else if chain.first_accept is None {
            Ok(())
        } else if chain.second_accept is None {
            if ed25519_valid(
                key.public_key,
                self.challenge.encode(),
                chain.first_accept->Some_0.signature,
            ) {
                Err(ChainError::DuplicateKey)
            } else {
                Ok(())
            }
        } else {
            Err(ChainError::ChainFull)
        }
    }

    /// The chain after `key` has asked to accept. A key that the challenge
    /// does not name leaves the chain untouched. Otherwise a lone accept is
    /// first moved to the first slot, and where the key may accept, its
    /// accept fills the first free slot.
    pub open spec fn after_accept(self, key: KeyView) -> ChainView {
        let chain = self.normalize();
        match self.accept_outcome(key) {
            Err(ChainError::KeyNotInChallenge) => self,
            Err(_) => chain,
            Ok(_) => if chain.first_accept is None {
                ChainView { first_accept: Some(self.accept_by(key)), ..chain }
            } else {
                ChainView { second_accept: Some(self.accept_by(key)), ..chain }
            },
        }
    }

    /// The block that `key` makes for the move `m` at the end of this chain:
    /// the squares of the move, and the signature of the key over the
    /// encoded chain followed by the squares.
    pub open spec fn block_by(self, key: KeyView, m: Move) -> MoveView {
        MoveView {
            start_square: m.source,
            end_square: m.dest,
            signature: key.signature(self.encode() + seq![m.source, m.dest]),
        }
    }

    /// Whether `key` may append `action`, and the error if it may not, in
    /// the order in which the conditions are tested: the recorded moves must
    /// be playable from the initial position; the key must be that of the
    /// side to move; the action must be a move; the move must be legal.
    pub open spec fn append_outcome(self, key: KeyView, action: Action) -> Result<(), ChainError> {
        match replay(self.squares()) {
            None => Err(ChainError::InconsistentChain),
            Some(made) => if key.public_key != self.mover_key(self.moves.len() as int) {
                Err(ChainError::WrongSigner)
            } else {
                match action {
                    Action::MakeMove(m) => if legal_moves_after(made).contains(m) {
                        Ok(())
                    } else {
                        Err(ChainError::IllegalMove)
                    },
                    _ => Err(ChainError::UnsupportedAction),
                }
            },
        }
    }

    /// The chain after `key` has asked to append `action`: one block longer
    /// where it may, unchanged where it may not.
    pub open spec fn after_append(self, key: KeyView, action: Action) -> ChainView {
        match (self.append_outcome(key, action), action) {
            (Ok(_), Action::MakeMove(m)) => ChainView {
                moves: self.moves.push(self.block_by(key, m)),
                ..self
            },
            _ => self,
        }
    }
}

} // verus!
