use blocking_entropy::chunks::ChunkError;
use blocking_entropy::pack::{octet_to_byte, pack, BitPacker};

#[test]
fn alternating_octet_is_0xaa() {
    let octet: Vec<bool> = vec![true, false, true, false, true, false, true, false];
    assert_eq!(octet_to_byte(octet), Ok(Some(0xAA)));
}

#[test]
fn first_bit_is_the_most_significant() {
    let mut octet: Vec<bool> = vec![false; 8];
    octet[0] = true;
    assert_eq!(octet_to_byte(octet), Ok(Some(0x80)));
}

#[test]
fn last_bit_is_the_least_significant() {
    let mut octet: Vec<bool> = vec![false; 8];
    octet[7] = true;
    assert_eq!(octet_to_byte(octet), Ok(Some(0x01)));
}

#[test]
fn each_bit_has_its_weight() {
    let mut place: usize = 0;
    while place < 8 {
        let mut octet: Vec<bool> = vec![false; 8];
        octet[place] = true;
        assert_eq!(octet_to_byte(octet), Ok(Some(1u8 << (7 - place))));
        place += 1;
    }
}

#[test]
fn extreme_octets() {
    assert_eq!(octet_to_byte(vec![false; 8]), Ok(Some(0x00)));
    assert_eq!(octet_to_byte(vec![true; 8]), Ok(Some(0xFF)));
}

#[test]
fn every_byte_has_its_octet() {
    let mut value: u16 = 0;
    while value < 256 {
        let mut octet: Vec<bool> = Vec::new();
        let mut place: u32 = 0;
        while place < 8 {
            octet.push((value >> (7 - place)) & 1 == 1);
            place += 1;
        }
        assert_eq!(octet_to_byte(octet), Ok(Some(value as u8)));
        value += 1;
    }
}

#[test]
fn unfinished_octet_is_dropped_not_padded() {
    assert_eq!(octet_to_byte(vec![true; 7]), Ok(None));
    assert_eq!(octet_to_byte(vec![true]), Ok(None));
    assert_eq!(octet_to_byte(Vec::new()), Ok(None));
}

#[test]
fn oversized_octet_is_refused() {
    assert_eq!(octet_to_byte(vec![false; 9]), Err(ChunkError::OversizedOctet));
    assert_eq!(octet_to_byte(vec![true; 16]), Err(ChunkError::OversizedOctet));
}

#[test]
fn pack_takes_octets_in_order() {
    let mut bits: Vec<bool> = vec![true, false, true, false, true, false, true, false];
    bits.extend(vec![false, false, false, false, true, true, true, true]);
    bits.extend(vec![true; 8]);
    assert_eq!(pack(&bits), vec![0xAA, 0x0F, 0xFF]);
}

#[test]
fn pack_drops_a_trailing_partial_octet() {
    let mut bits: Vec<bool> = vec![true; 8];
    bits.extend(vec![true; 7]);
    assert_eq!(pack(&bits), vec![0xFF]);
    assert_eq!(pack(&vec![true; 7]), Vec::<u8>::new());
    assert_eq!(pack(&Vec::new()), Vec::<u8>::new());
}

#[test]
fn packer_answers_on_every_eighth_bit() {
    let mut packer: BitPacker = BitPacker::new();
    let octet: Vec<bool> = vec![false, true, true, false, false, false, false, true];
    let mut place: usize = 0;
    while place < 7 {
        assert_eq!(packer.push(octet[place]), None);
        place += 1;
    }
    assert_eq!(packer.push(octet[7]), Some(0x61));
}

#[test]
fn packer_keeps_nothing_of_earlier_octets() {
    let mut after_ones: BitPacker = BitPacker::new();
    for _ in 0..8 {
        after_ones.push(true);
    }
    let mut after_zeros: BitPacker = BitPacker::new();
    for _ in 0..8 {
        after_zeros.push(false);
    }
    let octet: Vec<bool> = vec![true, false, false, true, false, true, true, false];
    let mut from_ones: Option<u8> = None;
    let mut from_zeros: Option<u8> = None;
    for bit in octet.iter() {
        from_ones = after_ones.push(*bit);
        from_zeros = after_zeros.push(*bit);
    }
    assert_eq!(from_ones, Some(0x96));
    assert_eq!(from_zeros, Some(0x96));
}
