//! The reasons for which an operation on a chain is refused.

use vstd::prelude::*;

verus! {

/// Why a chain operation did not go through. A refusal adds no block to the
/// chain, so the caller may correct the input and try again.
#[derive(Clone, Copy, Debug, PartialEq, Eq, Structural, Hash)]
pub enum ChainError {
    /// The accepting key is neither the white nor the black key of the challenge.
    KeyNotInChallenge,
    /// The accepting key has already signed the challenge.
    DuplicateKey,
    /// Both accept slots are taken.
    ChainFull,
    /// The move is signed by the key of the side that is not to move.
    WrongSigner,
    /// The move is not legal in the current position.
    IllegalMove,
    /// The action is not a move; nothing else can be recorded yet.
    UnsupportedAction,
    /// The bytes end before the block that is being read.
    TruncatedInput,
    /// A recorded move is not legal in the position that the moves before it
    /// lead to.
    InconsistentChain,
}

impl ChainError {
    /// The text of the message for each error.
    pub open spec fn message_text(self) -> Seq<char> {
        match self {
            ChainError::KeyNotInChallenge => "This key is not in the challenge block."@,
            ChainError::DuplicateKey => "This key is already present in the chain."@,
            ChainError::ChainFull => "There are already two signatures on this chain."@,
            ChainError::WrongSigner => "This key cannot sign the current move."@,
            ChainError::IllegalMove => "Invalid move."@,
            ChainError::UnsupportedAction => "Action not implemented"@,
            ChainError::TruncatedInput => "Not enough bytes to create block."@,
            ChainError::InconsistentChain => "Invalid game chain!"@,
        }
    }

    /// A sentence for the user.
    pub fn message(&self) -> (text: &'static str)
        ensures
            text@ == self.message_text(),
    {
        match self {
            ChainError::KeyNotInChallenge => "This key is not in the challenge block.",
            ChainError::DuplicateKey => "This key is already present in the chain.",
            ChainError::ChainFull => "There are already two signatures on this chain.",
            ChainError::WrongSigner => "This key cannot sign the current move.",
            ChainError::IllegalMove => "Invalid move.",
            ChainError::UnsupportedAction => "Action not implemented",
            ChainError::TruncatedInput => "Not enough bytes to create block.",
            ChainError::InconsistentChain => "Invalid game chain!",
        }
    }
}

} // verus!
