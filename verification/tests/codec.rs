use lineage::block::{AcceptBlock, ChallengeBlock, GameChain, MoveBlock};
use lineage::error::ChainError;
use lineage::wire::{get_array, get_u32_be, get_u64_be, put_bytes, put_u32_be, put_u64_be, same_bytes};

fn sample_challenge_bytes() -> Vec<u8> {
    let mut bytes = vec![3u8, 9];
    bytes.extend_from_slice(&[0x01, 0x02, 0x03, 0x04]);
    bytes.extend_from_slice(&[7u8; 32]);
    bytes.extend_from_slice(&[9u8; 32]);
    bytes.extend_from_slice(&[0xff, 0xfe, 0xfd, 0xfc]);
    bytes.extend_from_slice(&[1, 2, 3, 4, 5, 6, 7, 8]);
    bytes
}

#[test]
fn challenge_layout_is_fixed() {
    let white = [7u8; 32];
    let black = [9u8; 32];
    let challenge = ChallengeBlock::new(&white, &black);
    let bytes = challenge.as_bytes();
    assert_eq!(bytes.len(), 82);
    assert_eq!(&bytes[0..6], &[0u8; 6]);
    assert_eq!(&bytes[6..38], &white);
    assert_eq!(&bytes[38..70], &black);
    assert_eq!(&bytes[70..82], &[0u8; 12]);
    assert_eq!(challenge.white_public_key(), &white);
    assert_eq!(challenge.black_public_key(), &black);
}

#[test]
fn challenge_with_every_field_round_trips() {
    let bytes = sample_challenge_bytes();
    let challenge = ChallengeBlock::from_bytes(&bytes).unwrap();
    assert_eq!(challenge.as_bytes(), bytes);
    assert_eq!(ChallengeBlock::from_bytes(&challenge.as_bytes()), Ok(challenge));
    assert_ne!(challenge, ChallengeBlock::new(&[7u8; 32], &[9u8; 32]));
}

#[test]
fn challenge_ignores_what_follows() {
    let mut bytes = sample_challenge_bytes();
    let challenge = ChallengeBlock::from_bytes(&bytes).unwrap();
    bytes.extend_from_slice(&[5u8; 10]);
    assert_eq!(ChallengeBlock::from_bytes(&bytes), Ok(challenge));
}

#[test]
fn short_challenge_is_truncated_input() {
    let bytes = vec![0u8; 81];
    assert_eq!(ChallengeBlock::from_bytes(&bytes), Err(ChainError::TruncatedInput));
    assert_eq!(ChallengeBlock::from_bytes(&[]), Err(ChainError::TruncatedInput));
    assert_eq!(GameChain::from_bytes(&bytes).err(), Some(ChainError::TruncatedInput));
    assert!(ChallengeBlock::from_bytes(&vec![0u8; 82]).is_ok());
}

#[test]
fn short_blocks_are_truncated_input() {
    assert_eq!(AcceptBlock::from_bytes(&[1u8; 63]), Err(ChainError::TruncatedInput));
    assert_eq!(AcceptBlock::from_bytes(&[1u8; 64]), Ok(AcceptBlock { signature: [1u8; 64] }));
    assert_eq!(AcceptBlock::from_bytes(&[1u8; 70]), Ok(AcceptBlock { signature: [1u8; 64] }));
    assert_eq!(MoveBlock::from_bytes(&[1u8; 65]), Err(ChainError::TruncatedInput));
    let mut record = vec![12u8, 28];
    record.extend_from_slice(&[4u8; 64]);
    let block = MoveBlock { start_square: 12, end_square: 28, signature: [4u8; 64] };
    assert_eq!(MoveBlock::from_bytes(&record), Ok(block));
    assert_eq!(block.as_bytes(), record);
}

#[test]
fn chain_bytes_stop_at_the_first_gap() {
    let challenge = ChallengeBlock::from_bytes(&sample_challenge_bytes()).unwrap();
    let mut chain = GameChain::new(challenge);
    assert_eq!(chain.as_bytes(), sample_challenge_bytes());
    chain.moves.push(MoveBlock { start_square: 1, end_square: 2, signature: [3; 64] });
    assert_eq!(chain.as_bytes().len(), 82);
    chain.accepts[1] = Some(AcceptBlock { signature: [8; 64] });
    assert_eq!(chain.as_bytes().len(), 82);
    chain.accepts[0] = Some(AcceptBlock { signature: [6; 64] });
    let bytes = chain.as_bytes();
    assert_eq!(bytes.len(), 82 + 64 + 64 + 66);
    assert_eq!(&bytes[82..146], &[6u8; 64]);
    assert_eq!(&bytes[146..210], &[8u8; 64]);
    assert_eq!(&bytes[210..212], &[1, 2]);
    assert_eq!(&bytes[212..], &[3u8; 64]);
    chain.accepts[1] = None;
    assert_eq!(chain.as_bytes().len(), 82 + 64);
}

#[test]
fn chain_decoding_is_greedy() {
    let head = sample_challenge_bytes();
    let challenge = ChallengeBlock::from_bytes(&head).unwrap();
    let mut bytes = head.clone();
    bytes.extend_from_slice(&[6u8; 63]);
    let chain = GameChain::from_bytes(&bytes).unwrap();
    assert_eq!(chain, GameChain::new(challenge));
    bytes.push(6);
    let chain = GameChain::from_bytes(&bytes).unwrap();
    assert_eq!(chain.accepts, [Some(AcceptBlock { signature: [6; 64] }), None]);
    bytes.extend_from_slice(&[8u8; 64]);
    bytes.extend_from_slice(&[1u8; 65]);
    let chain = GameChain::from_bytes(&bytes).unwrap();
    assert_eq!(chain.accepts[1], Some(AcceptBlock { signature: [8; 64] }));
    assert!(chain.moves.is_empty());
    bytes.push(1);
    bytes.extend_from_slice(&[2u8; 66]);
    bytes.extend_from_slice(&[3u8; 5]);
    let chain = GameChain::from_bytes(&bytes).unwrap();
    assert_eq!(chain.moves.len(), 2);
    assert_eq!(chain.moves[0], MoveBlock { start_square: 1, end_square: 1, signature: [1; 64] });
    assert_eq!(chain.moves[1], MoveBlock { start_square: 2, end_square: 2, signature: [2; 64] });
    assert_eq!(chain.as_bytes(), &bytes[..bytes.len() - 5]);
    assert_eq!(GameChain::from_bytes(&chain.as_bytes()), Ok(chain));
}

#[test]
fn integers_are_big_endian() {
    let mut out = vec![0xaa];
    put_u32_be(&mut out, 0x0102_0304);
    put_u64_be(&mut out, 0x1112_1314_1516_1718);
    put_u32_be(&mut out, u32::MAX);
    put_u64_be(&mut out, 0);
    assert_eq!(
        out,
        vec![
            0xaa, 1, 2, 3, 4, 0x11, 0x12, 0x13, 0x14, 0x15, 0x16, 0x17, 0x18, 0xff, 0xff, 0xff,
            0xff, 0, 0, 0, 0, 0, 0, 0, 0
        ]
    );
    assert_eq!(get_u32_be(&out, 1), 0x0102_0304);
    assert_eq!(get_u64_be(&out, 5), 0x1112_1314_1516_1718);
    assert_eq!(get_u32_be(&out, 13), u32::MAX);
    assert_eq!(get_u64_be(&out, 13), 0xffff_ffff_0000_0000);
    assert_eq!(0x0102_0304u32.to_be_bytes(), [1, 2, 3, 4]);
}

#[test]
fn byte_helpers() {
    let mut out = vec![1u8];
    put_bytes(&mut out, &[2, 3]);
    put_bytes(&mut out, &[]);
    assert_eq!(out, vec![1, 2, 3]);
    let field: [u8; 2] = get_array(&out, 1);
    assert_eq!(field, [2, 3]);
    assert!(same_bytes(&[1, 2], &[1, 2]));
    assert!(!same_bytes(&[1, 2], &[1, 3]));
    assert!(!same_bytes(&[1, 2], &[1, 2, 3]));
    assert!(same_bytes(&[], &[]));
}
