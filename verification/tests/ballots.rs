use ballotchain::ballot::{check_difficulty, Ballot};
use ballotchain::bytes::difficulty_bytes_as_u128;
use sha2::Digest;

fn sample() -> Ballot {
    Ballot::new(3, 1_700_000_000_000, vec![9u8; 32], 4, 77, u128::MAX)
}

#[test]
fn new_ballot_is_unmined() {
    let b = sample();
    assert_eq!(b.index, 3);
    assert_eq!(b.timestamp, 1_700_000_000_000);
    assert_eq!(b.hash, vec![0u8; 32]);
    assert_eq!(b.prev_block_hash, vec![9u8; 32]);
    assert_eq!(b.nonce, 0);
    assert_eq!(b.voted_candidate_id, 4);
    assert_eq!(b.voter_id, 77);
    assert_eq!(b.difficulty, u128::MAX);
}

#[test]
fn ballot_bytes_layout() {
    let b = sample();
    let bytes = b.bytes();
    let mut expected = Vec::new();
    expected.extend_from_slice(&3u32.to_le_bytes());
    expected.extend_from_slice(&1_700_000_000_000u128.to_le_bytes());
    expected.extend_from_slice(&[9u8; 32]);
    expected.extend_from_slice(&0u64.to_le_bytes());
    expected.extend_from_slice(&4u32.to_le_bytes());
    expected.extend_from_slice(&u128::MAX.to_le_bytes());
    assert_eq!(bytes, expected);
    assert_eq!(bytes.len(), 80);
}

#[test]
fn voter_is_not_hashed() {
    let a = sample();
    let mut b = sample();
    b.voter_id = 1;
    assert_eq!(a.bytes(), b.bytes());
    assert_eq!(a.hash(), b.hash());
}

#[test]
fn hash_is_sha256_of_bytes() {
    let b = sample();
    let h = b.hash();
    assert_eq!(h.len(), 32);
    let expected = sha2::Sha256::digest(b.bytes()).to_vec();
    assert_eq!(h, expected);
    assert_ne!(h, b.bytes());
}

#[test]
fn ballot_with_empty_previous_hash_has_48_bytes() {
    let b = Ballot::new(0, 0, vec![], 0, 0, 0);
    assert_eq!(b.bytes(), vec![0u8; 48]);
    assert_eq!(b.hash(), sha2::Sha256::digest([0u8; 48]).to_vec());
}

#[test]
fn check_difficulty_compares_bytes_16_to_31() {
    let zero = vec![0u8; 32];
    assert!(check_difficulty(&zero, 1));
    assert!(!check_difficulty(&zero, 0));
    let mut h = vec![0u8; 32];
    h[16] = 5;
    assert!(!check_difficulty(&h, 5));
    assert!(check_difficulty(&h, 6));
    let full = vec![0xffu8; 32];
    assert!(!check_difficulty(&full, u128::MAX));
}

#[test]
fn vote_with_easy_difficulty_takes_first_nonce() {
    let mut b = sample();
    b.voted_candidate_id = 4;
    let before = b.hash();
    b.vote(11);
    // nonce 0 works unless the hash reads as u128::MAX
    assert_eq!(b.nonce, 0);
    assert_eq!(b.hash, before);
    assert_eq!(b.voted_candidate_id, 11);
    assert!(check_difficulty(&b.hash, b.difficulty));
}

#[test]
fn vote_finds_first_working_nonce() {
    let mut b = Ballot::new(1, 42, vec![0u8; 32], 0, 5, 0x000f_ffff_ffff_ffff_ffff_ffff_ffff_ffff);
    b.vote(2);
    assert_eq!(b.voted_candidate_id, 2);
    assert!(check_difficulty(&b.hash, b.difficulty));
    // the hash was computed with the candidate the ballot held while mining (0)
    let mut probe = Ballot::new(1, 42, vec![0u8; 32], 0, 5, b.difficulty);
    probe.nonce = b.nonce;
    assert_eq!(probe.hash(), b.hash);
    for n in 0..b.nonce {
        probe.nonce = n;
        assert!(difficulty_bytes_as_u128(&probe.hash()) >= b.difficulty);
    }
}

#[test]
fn candidate_and_voter_checks_do_nothing() {
    Ballot::candidate_check(1);
    Ballot::voted_check(2);
}

#[test]
fn ballot_description() {
    let mut b = Ballot::new(7, 1234, vec![0u8; 32], 3, 99, 5);
    b.hash = vec![0x00, 0x1f, 0xa0, 0xff];
    b.nonce = 42;
    assert_eq!(
        b.describe(),
        "Vote Ballot[7]: 001fa0ff created at: 1234 voted for: 3 voted by: 99 nonce: 42"
    );
    let big = Ballot::new(u32::MAX, u128::MAX, vec![], 0, 0, 0);
    assert_eq!(
        big.describe(),
        format!(
            "Vote Ballot[{}]: {} created at: {} voted for: 0 voted by: 0 nonce: 0",
            u32::MAX,
            "0".repeat(64),
            u128::MAX
        )
    );
}
