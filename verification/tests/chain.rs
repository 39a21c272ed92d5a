use lineage::block::{ChallengeBlock, GameChain};
use lineage::crypto;
use lineage::crypto::KeyPair;
use lineage::rules::{Action, Move};

fn key(rng: &ring::rand::SystemRandom) -> KeyPair {
    crypto::generate_key(rng).unwrap()
}

#[allow(deprecated)]
fn square(name: &str) -> u8 {
    chess::Square::from_string(name.to_string()).unwrap().to_int()
}

fn step(from: &str, to: &str) -> Action {
    Action::MakeMove(Move::new(square(from), square(to), None))
}

#[test]
fn challenge_to_bytes_and_back() {
    let rng = crypto::new_rng();
    let white = key(&rng);
    let black = key(&rng);
    let challenge = ChallengeBlock::new(white.public_key(), black.public_key());
    assert_eq!(challenge, ChallengeBlock::from_bytes(&challenge.as_bytes()).unwrap());
}

#[test]
fn sign_and_verify_chain() {
    let rng = crypto::new_rng();
    let white = key(&rng);
    let black = key(&rng);
    let challenge = ChallengeBlock::new(white.public_key(), black.public_key());
    let mut chain = GameChain::new(challenge.clone());
    assert!(chain.accept(&white).is_ok());
    assert!(chain.accept(&black).is_ok());
    assert!(chain.verify());

    chain = GameChain::new(challenge);
    assert!(chain.accept(&white).is_ok());
    assert!(chain.accept(&black).is_ok());
    assert!(chain.verify());
}

#[test]
fn chain_verify_fails() {
    let rng = crypto::new_rng();
    let white = key(&rng);
    let black = key(&rng);
    let challenge = ChallengeBlock::new(white.public_key(), black.public_key());
    let mut chain = GameChain::new(challenge);

    assert!(!chain.verify());

    assert!(chain.accept(&white).is_ok());
    assert!(!chain.verify());

    // sign a second time with the same key (shouldn't work)
    assert!(!chain.accept(&white).is_ok());
    assert!(!chain.verify());

    // duplicate the key so both accept blocks will verify (but only for one color)
    chain.accepts[1] = chain.accepts[0].clone();
    assert!(!chain.verify());
}

#[test]
fn chain_to_bytes_and_back() {
    let rng = crypto::new_rng();
    let white = key(&rng);
    let black = key(&rng);
    let challenge = ChallengeBlock::new(white.public_key(), black.public_key());
    assert_eq!(challenge, ChallengeBlock::from_bytes(&challenge.as_bytes()).unwrap());
    let mut chain = GameChain::new(challenge.clone());
    assert!(chain.accept(&white).is_ok());
    assert!(chain.accept(&black).is_ok());

    assert_eq!(chain, GameChain::from_bytes(&chain.as_bytes()).unwrap());
}

#[test]
fn make_moves() {
    let rng = crypto::new_rng();
    let white = key(&rng);
    let black = key(&rng);
    let challenge = ChallengeBlock::new(white.public_key(), black.public_key());
    assert_eq!(challenge, ChallengeBlock::from_bytes(&challenge.as_bytes()).unwrap());
    let mut chain = GameChain::new(challenge.clone());
    assert!(chain.accept(&white).is_ok());
    assert!(chain.accept(&black).is_ok());

    assert!(chain.make_move_block(&white, step("e2", "e4")).is_ok());
    assert!(chain.verify());
    assert!(chain.make_move_block(&black, step("e7", "e5")).is_ok());
    assert!(chain.verify());
    assert!(chain.make_move_block(&white, step("f2", "f4")).is_ok());
    assert!(chain.verify());

    chain.moves[0].signature[0] = chain.moves[0].signature[0].wrapping_add(1);
    assert!(!chain.verify());
    chain.moves[0].signature[0] = chain.moves[0].signature[0].wrapping_sub(1);
    assert!(chain.verify());
    chain.moves[2].signature[0] = chain.moves[2].signature[0].wrapping_add(1);
    assert!(!chain.verify());
    chain.moves[2].signature[0] = chain.moves[2].signature[0].wrapping_sub(1);
    assert!(chain.verify());
}
