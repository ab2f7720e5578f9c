use blocking_entropy::chunks::ChunkError;
use blocking_entropy::debias::{debias, vec_to_pair, von_neumann_debias, Debiaser};

#[test]
fn differing_pair_gives_its_first_sample() {
    assert_eq!(von_neumann_debias((false, true)), Some(false));
    assert_eq!(von_neumann_debias((true, false)), Some(true));
}

#[test]
fn agreeing_pair_gives_nothing() {
    assert_eq!(von_neumann_debias((false, false)), None);
    assert_eq!(von_neumann_debias((true, true)), None);
}

#[test]
fn pair_keeps_arrival_order() {
    assert_eq!(vec_to_pair(vec![1u8, 2u8]), Ok(Some((1u8, 2u8))));
    assert_eq!(vec_to_pair(vec![true, false]), Ok(Some((true, false))));
    assert_eq!(vec_to_pair(vec!["first", "second"]), Ok(Some(("first", "second"))));
}

#[test]
fn unfinished_pair_is_dropped() {
    assert_eq!(vec_to_pair(vec![7u8]), Ok(None));
    assert_eq!(vec_to_pair(Vec::<u8>::new()), Ok(None));
}

#[test]
fn oversized_pair_is_refused() {
    assert_eq!(vec_to_pair(vec![1u8, 2u8, 3u8]), Err(ChunkError::OversizedPair));
    assert_eq!(vec_to_pair(vec![true; 10]), Err(ChunkError::OversizedPair));
}

#[test]
fn debias_keeps_first_of_each_differing_pair() {
    let bits: Vec<bool> = vec![true, false, true, true, false, false];
    assert_eq!(debias(&bits), vec![true]);
}

#[test]
fn debias_keeps_the_order_of_the_pairs() {
    let bits: Vec<bool> = vec![
        false, true, // false
        true, true, // nothing
        true, false, // true
        false, false, // nothing
        true, false, // true
        false, true, // false
    ];
    assert_eq!(debias(&bits), vec![false, true, true, false]);
}

#[test]
fn debias_counts_the_differing_pairs() {
    let mut bits: Vec<bool> = Vec::new();
    let mut differing: usize = 0;
    let mut state: u32 = 99;
    let mut pair: usize = 0;
    while pair < 500 {
        state = state.wrapping_mul(1103515245).wrapping_add(12345) & 0x7fff_ffff;
        let b1: bool = (state >> 16) & 1 == 1;
        state = state.wrapping_mul(1103515245).wrapping_add(12345) & 0x7fff_ffff;
        let b2: bool = (state >> 16) & 1 == 1;
        if b1 != b2 {
            differing += 1;
        }
        bits.push(b1);
        bits.push(b2);
        pair += 1;
    }
    let whitened: Vec<bool> = debias(&bits);
    assert_eq!(whitened.len(), differing);
    assert!(differing > 0);
    assert!(differing < 500);
}

#[test]
fn debias_of_nothing_is_nothing() {
    assert_eq!(debias(&Vec::new()), Vec::<bool>::new());
}

#[test]
fn debias_ignores_a_last_sample_without_partner() {
    assert_eq!(debias(&vec![true]), Vec::<bool>::new());
    assert_eq!(debias(&vec![true, false, true]), vec![true]);
    assert_eq!(debias(&vec![true, false, false]), vec![true]);
}

#[test]
fn debias_does_not_pair_across_pairs() {
    // The second and third samples differ, but they belong to two pairs.
    assert_eq!(debias(&vec![true, true, false, false]), Vec::<bool>::new());
}

#[test]
fn debiaser_answers_on_every_second_sample() {
    let mut debiaser: Debiaser = Debiaser::new();
    assert_eq!(debiaser.push(true), None);
    assert_eq!(debiaser.push(false), Some(true));
    assert_eq!(debiaser.push(false), None);
    assert_eq!(debiaser.push(false), None);
    assert_eq!(debiaser.push(false), None);
    assert_eq!(debiaser.push(true), Some(false));
}

#[test]
fn debiaser_agrees_with_debias() {
    let bits: Vec<bool> = vec![
        true, false, false, true, true, true, false, true, false, false, true, false, true,
    ];
    let mut debiaser: Debiaser = Debiaser::new();
    let mut streamed: Vec<bool> = Vec::new();
    for bit in bits.iter() {
        if let Some(first) = debiaser.push(*bit) {
            streamed.push(first);
        }
    }
    assert_eq!(streamed, debias(&bits));
    assert_eq!(streamed, vec![true, false, false, true]);
}
