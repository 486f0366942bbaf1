use ballotchain::ballot::Ballot;
use ballotchain::ballotchain::{Ballotchain, BlockValidationErr};

fn genesis(ts: u128) -> Ballot {
    let mut b = Ballot::new(0, ts, vec![0u8; 32], 0, 1, u128::MAX);
    b.vote(1);
    b
}

#[test]
fn new_chain_is_empty() {
    let c = Ballotchain::new();
    assert!(c.ballots.is_empty());
}

#[test]
fn genesis_is_accepted() {
    let mut c = Ballotchain::new();
    assert_eq!(c.update_with_block(genesis(10)), Ok(()));
    assert_eq!(c.ballots.len(), 1);
}

#[test]
fn genesis_needs_zero_previous_hash() {
    let mut c = Ballotchain::new();
    let b = Ballot::new(0, 10, vec![1u8; 32], 0, 1, 5);
    assert_eq!(c.update_with_block(b), Err(BlockValidationErr::InvalidGenesisBlockFormat));
    assert!(c.ballots.is_empty());
    let short = Ballot::new(0, 10, vec![0u8; 31], 0, 1, 5);
    assert_eq!(c.update_with_block(short), Err(BlockValidationErr::InvalidGenesisBlockFormat));
}

#[test]
fn index_must_be_chain_length() {
    let mut c = Ballotchain::new();
    let b = Ballot::new(1, 10, vec![0u8; 32], 0, 1, 5);
    assert_eq!(c.update_with_block(b), Err(BlockValidationErr::MismatchedIndex));
    assert!(c.ballots.is_empty());
}

#[test]
fn timestamps_must_increase() {
    let mut c = Ballotchain::new();
    let g = genesis(10);
    let h = g.hash.clone();
    c.update_with_block(g).unwrap();
    let same = Ballot::new(1, 10, h.clone(), 0, 1, 5);
    assert_eq!(c.update_with_block(same), Err(BlockValidationErr::AchronologicalTimestamp));
    let earlier = Ballot::new(1, 9, h.clone(), 0, 1, 5);
    assert_eq!(c.update_with_block(earlier), Err(BlockValidationErr::AchronologicalTimestamp));
    assert_eq!(c.ballots.len(), 1);
    let later = Ballot::new(1, 11, h, 0, 1, 5);
    assert_eq!(c.update_with_block(later), Ok(()));
    assert_eq!(c.ballots.len(), 2);
}

#[test]
fn zero_previous_hash_is_refused_after_genesis() {
    let mut c = Ballotchain::new();
    c.update_with_block(genesis(10)).unwrap();
    let b = Ballot::new(1, 11, vec![0u8; 32], 0, 1, 5);
    assert_eq!(c.update_with_block(b), Err(BlockValidationErr::MismatchedPreviousHash));
}

#[test]
fn other_previous_hash_is_accepted() {
    // only the zero hash is refused when it differs from the last hash
    let mut c = Ballotchain::new();
    c.update_with_block(genesis(10)).unwrap();
    let b = Ballot::new(1, 11, vec![7u8; 32], 0, 1, 5);
    assert_eq!(c.update_with_block(b), Ok(()));
}

#[test]
fn votes_are_counted() {
    let mut c = Ballotchain::new();
    let g = genesis(1);
    let mut prev = g.hash.clone();
    c.update_with_block(g).unwrap();
    for (k, id) in [3u32, 4, 3, 3].iter().enumerate() {
        let mut b = Ballot::new(k as u32 + 1, k as u128 + 2, prev.clone(), 0, 9, u128::MAX);
        b.vote(*id);
        prev = b.hash.clone();
        c.update_with_block(b).unwrap();
    }
    assert_eq!(c.count_votes(3), Some(3));
    assert_eq!(c.count_votes(4), Some(1));
    assert_eq!(c.count_votes(1), Some(1));
    assert_eq!(c.count_votes(99), Some(0));
}

#[test]
fn every_accepted_chain_is_valid() {
    // law: the chain built by accepted updates keeps indices, order and links
    let mut c = Ballotchain::new();
    let g = genesis(5);
    let mut prev = g.hash.clone();
    c.update_with_block(g).unwrap();
    for k in 1..5u32 {
        let mut b = Ballot::new(k, 5 + k as u128, prev.clone(), 0, 9, u128::MAX);
        b.vote(k);
        prev = b.hash.clone();
        assert_eq!(c.update_with_block(b), Ok(()));
    }
    for (k, b) in c.ballots.iter().enumerate() {
        assert_eq!(b.index as usize, k);
        if k > 0 {
            assert!(b.timestamp > c.ballots[k - 1].timestamp);
            assert_eq!(b.prev_block_hash, c.ballots[k - 1].hash);
        }
    }
}
