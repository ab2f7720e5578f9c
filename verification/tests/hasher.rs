use blocking_entropy::chunks::ChunkError;
use blocking_entropy::hash::{digest_to_vec, hash, sha3, BlockHasher};

fn digest_of_zeros() -> Vec<u8> {
    vec![
        0x9e, 0x62, 0x91, 0x97, 0x0c, 0xb4, 0x4d, 0xd9, 0x40, 0x08, 0xc7, 0x9b, 0xca, 0xf9, 0xd8,
        0x6f, 0x18, 0xb4, 0xb4, 0x9b, 0xa5, 0xb2, 0xa0, 0x47, 0x81, 0xdb, 0x71, 0x99, 0xed, 0x3b,
        0x9e, 0x4e,
    ]
}

fn digest_of_ones() -> Vec<u8> {
    vec![
        0x01, 0xed, 0x92, 0x71, 0xb2, 0xe7, 0xbf, 0xdf, 0xff, 0xb1, 0x30, 0xd4, 0x03, 0xda, 0xf0,
        0x02, 0xde, 0x33, 0x31, 0x7d, 0x38, 0x06, 0xb4, 0x7a, 0xab, 0x95, 0xfa, 0x68, 0x6e, 0xfa,
        0x16, 0x89,
    ]
}

fn digest_of_counting() -> Vec<u8> {
    vec![
        0x05, 0x0a, 0x48, 0x73, 0x3b, 0xd5, 0xc2, 0x75, 0x6b, 0xa9, 0x5c, 0x58, 0x28, 0xcc, 0x83,
        0xee, 0x16, 0xfa, 0xbc, 0xd3, 0xc0, 0x86, 0x88, 0x5b, 0x77, 0x44, 0xf8, 0x4a, 0x0f, 0x9e,
        0x0d, 0x94,
    ]
}

fn counting_block() -> Vec<u8> {
    (0u8..32u8).collect()
}

#[test]
fn sha3_of_known_blocks() {
    assert_eq!(sha3(vec![0u8; 32]), Ok(Some(digest_of_zeros())));
    assert_eq!(sha3(vec![0xFFu8; 32]), Ok(Some(digest_of_ones())));
    assert_eq!(sha3(counting_block()), Ok(Some(digest_of_counting())));
}

#[test]
fn sha3_does_not_hand_the_block_back() {
    let block: Vec<u8> = counting_block();
    let digest: Vec<u8> = sha3(block.clone()).unwrap().unwrap();
    assert_eq!(digest.len(), 32);
    assert_ne!(digest, block);
}

#[test]
fn same_block_same_digest() {
    let first: Vec<u8> = sha3(counting_block()).unwrap().unwrap();
    let second: Vec<u8> = sha3(counting_block()).unwrap().unwrap();
    assert_eq!(first, second);
}

#[test]
fn blocks_that_differ_in_one_bit_have_different_digests() {
    let mut block: Vec<u8> = vec![0u8; 32];
    let plain: Vec<u8> = sha3(block.clone()).unwrap().unwrap();
    block[31] = 1;
    let flipped: Vec<u8> = sha3(block).unwrap().unwrap();
    assert_ne!(plain, flipped);
}

#[test]
fn unfinished_block_is_dropped_not_padded() {
    assert_eq!(sha3(vec![0u8; 31]), Ok(None));
    assert_eq!(sha3(vec![9u8]), Ok(None));
    assert_eq!(sha3(Vec::new()), Ok(None));
}

#[test]
fn oversized_block_is_refused() {
    assert_eq!(sha3(vec![0u8; 33]), Err(ChunkError::OversizedBlock));
    assert_eq!(sha3(vec![0u8; 64]), Err(ChunkError::OversizedBlock));
}

#[test]
fn digest_to_vec_keeps_every_byte() {
    let mut digest: [u8; 32] = [0u8; 32];
    let mut place: usize = 0;
    while place < 32 {
        digest[place] = (3 * place + 1) as u8;
        place += 1;
    }
    assert_eq!(digest_to_vec(&digest), digest.to_vec());
}

#[test]
fn hash_takes_blocks_in_order() {
    let mut bytes: Vec<u8> = vec![0xFFu8; 32];
    bytes.extend(counting_block());
    bytes.extend(vec![0u8; 32]);
    assert_eq!(hash(&bytes), vec![digest_of_ones(), digest_of_counting(), digest_of_zeros()]);
}

#[test]
fn hash_drops_a_trailing_partial_block() {
    let mut bytes: Vec<u8> = vec![0u8; 32];
    bytes.extend(vec![0u8; 31]);
    assert_eq!(hash(&bytes), vec![digest_of_zeros()]);
    assert_eq!(hash(&vec![0u8; 31]), Vec::<Vec<u8>>::new());
    assert_eq!(hash(&Vec::new()), Vec::<Vec<u8>>::new());
}

#[test]
fn hasher_answers_on_every_32nd_byte() {
    let mut hasher: BlockHasher = BlockHasher::new();
    let block: Vec<u8> = counting_block();
    let mut place: usize = 0;
    while place < 31 {
        assert_eq!(hasher.push(block[place]), None);
        place += 1;
    }
    assert_eq!(hasher.push(block[31]), Some(digest_of_counting()));
    // The next block starts from nothing.
    place = 0;
    while place < 31 {
        assert_eq!(hasher.push(0), None);
        place += 1;
    }
    assert_eq!(hasher.push(0), Some(digest_of_zeros()));
}
