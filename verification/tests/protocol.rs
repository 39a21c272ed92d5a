use lineage::block::{AcceptBlock, ChallengeBlock, GameChain, MoveBlock};
use lineage::crypto;
use lineage::crypto::KeyPair;
use lineage::error::ChainError;
use lineage::rules::{Action, Color, Move, Piece, Position};

fn key(rng: &ring::rand::SystemRandom) -> KeyPair {
    crypto::generate_key(rng).unwrap()
}

fn players() -> (KeyPair, KeyPair, GameChain) {
    let rng = crypto::new_rng();
    let white = key(&rng);
    let black = key(&rng);
    let chain = GameChain::new(ChallengeBlock::new(white.public_key(), black.public_key()));
    (white, black, chain)
}

fn accepted() -> (KeyPair, KeyPair, GameChain) {
    let (white, black, mut chain) = players();
    chain.accept(&white).unwrap();
    chain.accept(&black).unwrap();
    (white, black, chain)
}

fn step(source: u8, dest: u8) -> Action {
    Action::MakeMove(Move::new(source, dest, None))
}

#[test]
fn key_round_trips_through_its_document() {
    let rng = crypto::new_rng();
    let pair = key(&rng);
    let again = KeyPair::from_pkcs8(pair.pkcs8()).unwrap();
    assert_eq!(pair.public_key(), again.public_key());
    assert_eq!(pair.public_key().len(), 32);
    assert!(KeyPair::from_pkcs8(&[1, 2, 3]).is_none());
    assert!(KeyPair::from_pkcs8(&[]).is_none());
}

#[test]
fn signatures_are_deterministic_and_checked() {
    let rng = crypto::new_rng();
    let pair = key(&rng);
    let other = key(&rng);
    let sig = crypto::sign(&pair, b"hello");
    assert_eq!(sig, crypto::sign(&pair, b"hello"));
    assert_ne!(sig, crypto::sign(&pair, b"hellp"));
    assert_ne!(&sig[..32], &b"hello"[..]);
    assert!(crypto::verify(pair.public_key(), b"hello", &sig));
    assert!(!crypto::verify(pair.public_key(), b"hellp", &sig));
    assert!(!crypto::verify(other.public_key(), b"hello", &sig));
    assert!(!crypto::verify(pair.public_key(), b"hello", &sig[..63]));
    assert!(!crypto::verify(&pair.public_key()[..31], b"hello", &sig));
}

#[test]
fn accept_signs_the_encoded_challenge() {
    let (white, _black, chain) = players();
    let accept = AcceptBlock::new(&chain.challenge, &white);
    assert!(crypto::verify(white.public_key(), &chain.challenge.as_bytes(), &accept.signature));
    assert_eq!(accept.signature, crypto::sign(&white, &chain.challenge.as_bytes()));
    assert_eq!(accept.as_bytes(), accept.signature.to_vec());
}

#[test]
fn stranger_cannot_accept() {
    let (_white, _black, mut chain) = players();
    let rng = crypto::new_rng();
    let stranger = key(&rng);
    let before = chain.clone();
    assert_eq!(chain.accept(&stranger), Err(ChainError::KeyNotInChallenge));
    assert_eq!(chain, before);
}

#[test]
fn second_accept_with_same_key_is_duplicate() {
    let (white, _black, mut chain) = players();
    assert_eq!(chain.accept(&white), Ok(()));
    let before = chain.clone();
    assert_eq!(chain.accept(&white), Err(ChainError::DuplicateKey));
    assert_eq!(chain, before);
}

#[test]
fn third_accept_finds_chain_full() {
    let (white, black, mut chain) = accepted();
    assert_eq!(chain.accept(&white), Err(ChainError::ChainFull));
    assert_eq!(chain.accept(&black), Err(ChainError::ChainFull));
}

#[test]
fn accept_order_does_not_matter() {
    let (white, black, mut chain) = players();
    let mut other = chain.clone();
    assert_eq!(chain.accept(&white), Ok(()));
    assert_eq!(chain.accept(&black), Ok(()));
    assert!(chain.verify());
    assert_eq!(other.accept(&black), Ok(()));
    assert_eq!(other.accept(&white), Ok(()));
    assert!(other.verify());
    assert_eq!(chain.accepts[0], other.accepts[1]);
    assert_eq!(chain.accepts[1], other.accepts[0]);
}

#[test]
fn same_key_for_both_sides_accepts_once() {
    let rng = crypto::new_rng();
    let both = key(&rng);
    let mut chain = GameChain::new(ChallengeBlock::new(both.public_key(), both.public_key()));
    assert_eq!(chain.accept(&both), Ok(()));
    assert_eq!(chain.accept(&both), Err(ChainError::DuplicateKey));
    assert!(!chain.verify());
}

#[test]
fn lone_accept_in_second_slot_is_moved_up() {
    let (white, black, mut chain) = players();
    chain.accepts[1] = Some(AcceptBlock::new(&chain.challenge, &white));
    assert_eq!(chain.accept(&black), Ok(()));
    assert_eq!(chain.accepts[0], Some(AcceptBlock::new(&chain.challenge, &white)));
    assert_eq!(chain.accepts[1], Some(AcceptBlock::new(&chain.challenge, &black)));
    assert!(chain.verify());
}

#[test]
fn no_verify_without_both_accepts() {
    let (white, black, mut chain) = players();
    assert!(!chain.verify());
    chain.accept(&black).unwrap();
    assert!(!chain.verify());
    chain.accepts[1] = chain.accepts[0];
    chain.accepts[0] = None;
    assert!(!chain.verify());
    chain.accept(&white).unwrap();
    assert!(chain.verify());
}

#[test]
fn flipped_bit_in_an_accept_fails_until_restored() {
    let (_white, _black, chain) = accepted();
    for slot in 0..2 {
        for byte in [0usize, 31, 32, 63] {
            for bit in [0u8, 7] {
                let mut tampered = chain.clone();
                let mut accept = tampered.accepts[slot].unwrap();
                accept.signature[byte] ^= 1 << bit;
                tampered.accepts[slot] = Some(accept);
                assert!(!tampered.verify());
                accept.signature[byte] ^= 1 << bit;
                tampered.accepts[slot] = Some(accept);
                assert!(tampered.verify());
            }
        }
    }
}

#[test]
fn flipped_bit_in_any_move_fails_until_restored() {
    let (white, black, mut chain) = accepted();
    chain.make_move_block(&white, step(12, 28)).unwrap();
    chain.make_move_block(&black, step(52, 36)).unwrap();
    chain.make_move_block(&white, step(6, 21)).unwrap();
    assert!(chain.verify());
    for index in 0..3 {
        for byte in [0usize, 17, 40, 63] {
            chain.moves[index].signature[byte] ^= 0x10;
            assert!(!chain.verify());
            chain.moves[index].signature[byte] ^= 0x10;
            assert!(chain.verify());
        }
    }
    chain.moves[1].end_square = 44;
    assert!(!chain.verify());
    chain.moves[1].end_square = 36;
    assert!(chain.verify());
}

#[test]
fn move_signature_covers_chain_and_squares() {
    let (white, black, mut chain) = accepted();
    let mut covered = chain.as_bytes();
    covered.extend_from_slice(&[12, 28]);
    chain.make_move_block(&white, step(12, 28)).unwrap();
    assert_eq!(chain.moves[0].start_square, 12);
    assert_eq!(chain.moves[0].end_square, 28);
    assert_eq!(chain.moves[0].signature, crypto::sign(&white, &covered));
    let mut covered = chain.as_bytes();
    covered.extend_from_slice(&[52, 36]);
    chain.make_move_block(&black, step(52, 36)).unwrap();
    assert!(crypto::verify(black.public_key(), &covered, &chain.moves[1].signature));
    assert_eq!(chain.as_bytes().len(), 82 + 128 + 2 * 66);
}

#[test]
fn wrong_side_cannot_sign() {
    let (white, black, mut chain) = accepted();
    let before = chain.clone();
    assert_eq!(chain.make_move_block(&black, step(12, 28)), Err(ChainError::WrongSigner));
    assert_eq!(chain, before);
    chain.make_move_block(&white, step(12, 28)).unwrap();
    assert_eq!(chain.make_move_block(&white, step(52, 36)), Err(ChainError::WrongSigner));
    assert_eq!(chain.moves.len(), 1);
}

#[test]
fn illegal_move_is_refused() {
    let (white, _black, mut chain) = accepted();
    let before = chain.clone();
    assert_eq!(chain.make_move_block(&white, step(12, 36)), Err(ChainError::IllegalMove));
    assert_eq!(chain.make_move_block(&white, step(52, 36)), Err(ChainError::IllegalMove));
    assert_eq!(chain.make_move_block(&white, step(200, 201)), Err(ChainError::IllegalMove));
    let promoted = Action::MakeMove(Move::new(12, 28, Some(Piece::Queen)));
    assert_eq!(chain.make_move_block(&white, promoted), Err(ChainError::IllegalMove));
    assert_eq!(chain, before);
}

#[test]
fn only_moves_are_supported() {
    let (white, black, mut chain) = accepted();
    for action in [
        Action::OfferDraw(Color::White),
        Action::AcceptDraw,
        Action::DeclareDraw,
        Action::Resign(Color::White),
    ] {
        assert_eq!(chain.make_move_block(&white, action), Err(ChainError::UnsupportedAction));
        assert_eq!(chain.make_move_block(&black, action), Err(ChainError::WrongSigner));
    }
    assert!(chain.moves.is_empty());
}

#[test]
fn unplayable_record_is_inconsistent() {
    let (white, _black, mut chain) = accepted();
    chain.moves.push(MoveBlock { start_square: 12, end_square: 36, signature: [0; 64] });
    assert_eq!(chain.get_game().err(), Some(ChainError::InconsistentChain));
    assert_eq!(chain.make_move_block(&white, step(12, 28)), Err(ChainError::InconsistentChain));
    assert_eq!(chain.moves.len(), 1);
}

#[test]
fn position_follows_the_moves() {
    let (white, black, mut chain) = accepted();
    let start = chain.get_game().unwrap();
    assert_eq!(start.side_to_move(), Color::White);
    assert_eq!(start.legal_moves().len(), 20);
    assert!(start.legal(Move::new(12, 28, None)));
    assert!(!start.legal(Move::new(12, 36, None)));
    chain.make_move_block(&white, step(12, 28)).unwrap();
    let after = chain.get_game().unwrap();
    assert_eq!(after.side_to_move(), Color::Black);
    assert!(after.legal(Move::new(52, 36, None)));
    assert!(!after.legal(Move::new(12, 28, None)));
    chain.make_move_block(&black, step(52, 36)).unwrap();
    assert_eq!(chain.get_game().unwrap().side_to_move(), Color::White);
}

#[test]
fn play_takes_the_first_legal_move_between_two_squares() {
    let mut position = Position::start();
    assert!(!position.play(12, 44));
    assert_eq!(position.side_to_move(), Color::White);
    assert!(position.play(12, 28));
    assert_eq!(position.side_to_move(), Color::Black);
    assert!(!position.play(12, 28));
    assert!(position.play(51, 35));
    assert!(position.play(28, 35));
    assert!(position.legal(Move::new(59, 35, None)));
}

#[test]
fn promotion_is_part_of_a_move() {
    let mut position = Position::start();
    for (from, to) in [(8u8, 24u8), (49, 33), (24, 33), (50, 42), (33, 42), (62, 45), (42, 50), (55, 47)] {
        assert!(position.play(from, to), "{} to {}", from, to);
    }
    assert!(position.legal(Move::new(50, 57, Some(Piece::Queen))));
    assert!(position.legal(Move::new(50, 57, Some(Piece::Knight))));
    assert!(!position.legal(Move::new(50, 57, None)));
    assert!(!position.legal(Move::new(50, 57, Some(Piece::King))));
    assert!(position.play(50, 57));
    assert_eq!(position.side_to_move(), Color::Black);
    assert_eq!(Piece::from_index(4), Piece::Queen);
    assert_eq!(Move::from_parts(1, 2, Some(1)), Move::new(1, 2, Some(Piece::Knight)));
    assert_eq!(Move::from_parts(1, 2, None), Move::new(1, 2, None));
}

#[test]
fn scenario_two_players() {
    let (white, black, mut chain) = players();
    assert_eq!(chain.accept(&white), Ok(()));
    assert_eq!(chain.accept(&black), Ok(()));
    assert!(chain.verify());
    assert_eq!(chain.make_move_block(&white, step(12, 28)), Ok(()));
    assert!(chain.verify());
    assert_eq!(chain.make_move_block(&black, step(52, 36)), Ok(()));
    assert!(chain.verify());
    chain.moves[0].signature[5] ^= 0xff;
    assert!(!chain.verify());
    chain.moves[0].signature[5] ^= 0xff;
    assert!(chain.verify());
}

#[test]
fn observer_verifies_from_bytes_alone() {
    let (white, black, mut chain) = accepted();
    chain.make_move_block(&white, step(12, 28)).unwrap();
    chain.make_move_block(&black, step(52, 36)).unwrap();
    let mut bytes = chain.as_bytes();
    let seen = GameChain::from_bytes(&bytes).unwrap();
    assert_eq!(seen, chain);
    assert!(seen.verify());
    bytes[82 + 128 + 66 + 1] ^= 1;
    assert!(!GameChain::from_bytes(&bytes).unwrap().verify());
}

#[test]
fn error_messages() {
    assert_eq!(ChainError::KeyNotInChallenge.message(), "This key is not in the challenge block.");
    assert_eq!(ChainError::DuplicateKey.message(), "This key is already present in the chain.");
    assert_eq!(ChainError::ChainFull.message(), "There are already two signatures on this chain.");
    assert_eq!(ChainError::WrongSigner.message(), "This key cannot sign the current move.");
    assert_eq!(ChainError::IllegalMove.message(), "Invalid move.");
    assert_eq!(ChainError::UnsupportedAction.message(), "Action not implemented");
    assert_eq!(ChainError::TruncatedInput.message(), "Not enough bytes to create block.");
    assert_eq!(ChainError::InconsistentChain.message(), "Invalid game chain!");
}
