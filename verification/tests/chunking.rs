use blocking_entropy::chunks::Chunks;

#[test]
fn chunks_hand_out_every_third_item() {
    let mut chunks: Chunks<u16, 3> = Chunks::new();
    assert_eq!(chunks.push(10), None);
    assert_eq!(chunks.push(20), None);
    assert_eq!(chunks.push(30), Some(vec![10, 20, 30]));
    assert_eq!(chunks.push(40), None);
    assert_eq!(chunks.push(50), None);
    assert_eq!(chunks.push(60), Some(vec![40, 50, 60]));
}

#[test]
fn chunks_of_one_hand_out_every_item() {
    let mut chunks: Chunks<bool, 1> = Chunks::new();
    assert_eq!(chunks.push(true), Some(vec![true]));
    assert_eq!(chunks.push(false), Some(vec![false]));
}
