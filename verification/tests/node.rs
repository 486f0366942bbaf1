use ballotchain::ballot::check_difficulty;
use ballotchain::ballotchain::{Ballotchain, BlockValidationErr};
use ballotchain::candidate::Candidate;
use ballotchain::candidates::Candidates;
use ballotchain::command::{lacks_candidate_id, parse_command, Command};
use ballotchain::node::{
    mine_window_ballot, Reply, StepError, CONSOLE_VOTER_ID, DIFFICULTY, GENESIS_VOTER_ID,
    WINDOW_BALLOT_INDEX, WINDOW_VOTER_ID,
};

fn setup() -> (Ballotchain, Candidates, Vec<u8>) {
    let mut chain = Ballotchain::new();
    let last = chain.mine_genesis(1_000);
    let mut cs = Candidates::new();
    cs.add_candidate(Candidate::new("Mehmet".to_string(), 1, 0));
    cs.add_candidate(Candidate::new("Ahmet".to_string(), 2, 0));
    (chain, cs, last)
}

/// Carries out a command the way a node does: first the check, then the step.
fn run(
    chain: &mut Ballotchain,
    cs: &mut Candidates,
    last: &mut Vec<u8>,
    command: Command,
    timestamp: u128,
) -> Result<Reply, StepError> {
    match chain.step_error(cs, last, command, timestamp) {
        Some(e) => Err(e),
        None => Ok(chain.handle_command(cs, last, command, timestamp)),
    }
}

#[test]
fn genesis_is_mined_and_accepted() {
    let (chain, _, last) = setup();
    assert_eq!(chain.ballots.len(), 1);
    let g = &chain.ballots[0];
    assert_eq!(g.index, 0);
    assert_eq!(g.voter_id, GENESIS_VOTER_ID);
    assert_eq!(g.prev_block_hash, vec![0u8; 32]);
    assert_eq!(g.difficulty, DIFFICULTY);
    assert_eq!(g.voted_candidate_id, 0);
    assert_eq!(last, g.hash);
    assert!(check_difficulty(&g.hash, DIFFICULTY));
}

#[test]
fn second_genesis_would_be_refused() {
    // a node mines its first ballot only on an empty chain; a second one would be refused
    let (chain, _, _) = setup();
    assert_eq!(
        chain.check_new_block(0, 2_000, &vec![0u8; 32]),
        Err(BlockValidationErr::MismatchedIndex)
    );
}

#[test]
fn vote_command_casts_a_ballot() {
    let (mut chain, mut cs, mut last) = setup();
    let r = run(&mut chain, &mut cs, &mut last, Command::Vote(Some(2)), 2_000);
    assert_eq!(r, Ok(Reply::Voted));
    assert_eq!(chain.ballots.len(), 2);
    let b = &chain.ballots[1];
    assert_eq!(b.index, 1);
    assert_eq!(b.timestamp, 2_000);
    assert_eq!(b.voter_id, CONSOLE_VOTER_ID);
    assert_eq!(b.voted_candidate_id, 2);
    assert_eq!(b.prev_block_hash, chain.ballots[0].hash);
    assert_eq!(last, b.hash);
    assert_eq!(cs.candidates[1].vote_count, 1);
    assert_eq!(cs.candidates[0].vote_count, 0);
    let r = run(&mut chain, &mut cs, &mut last, Command::ShowCandidateVotes(Some(2)), 2_001);
    assert_eq!(r, Ok(Reply::VoteCount(1)));
    let r = run(&mut chain, &mut cs, &mut last, Command::ShowCandidateVotes(Some(1)), 2_001);
    assert_eq!(r, Ok(Reply::VoteCount(0)));
}

#[test]
fn vote_for_unknown_candidate_does_nothing() {
    let (mut chain, mut cs, mut last) = setup();
    let before = last.clone();
    let r = run(&mut chain, &mut cs, &mut last, Command::Vote(Some(9)), 2_000);
    assert_eq!(r, Ok(Reply::NoAction));
    assert_eq!(chain.ballots.len(), 1);
    assert_eq!(last, before);
}

#[test]
fn invalid_id_is_an_error_only_with_candidates() {
    let (mut chain, mut cs, mut last) = setup();
    let r = run(&mut chain, &mut cs, &mut last, Command::Vote(None), 2_000);
    assert_eq!(r, Err(StepError::InvalidCandidateId));
    let r = run(&mut chain, &mut cs, &mut last, Command::ShowCandidateInfo(None), 2_000);
    assert_eq!(r, Err(StepError::InvalidCandidateId));
    let mut empty = Candidates::new();
    let r = run(&mut chain, &mut empty, &mut last, Command::ShowCandidateVotes(None), 2_000);
    assert_eq!(r, Ok(Reply::CandidateNotFound));
    let r = run(&mut chain, &mut empty, &mut last, Command::Vote(None), 2_000);
    assert_eq!(r, Ok(Reply::NoAction));
}

#[test]
fn late_vote_is_rejected() {
    let (mut chain, mut cs, mut last) = setup();
    let r = run(&mut chain, &mut cs, &mut last, Command::Vote(Some(1)), 1_000);
    assert_eq!(r, Err(StepError::Rejected(BlockValidationErr::AchronologicalTimestamp)));
    assert_eq!(chain.ballots.len(), 1);
    assert_eq!(cs.candidates[0].vote_count, 0);
}

#[test]
fn full_vote_count_is_an_error() {
    let (mut chain, _, mut last) = setup();
    let mut cs = Candidates::new();
    cs.add_candidate(Candidate::new("x".to_string(), 1, u32::MAX));
    let r = run(&mut chain, &mut cs, &mut last, Command::Vote(Some(1)), 2_000);
    assert_eq!(r, Err(StepError::VoteCountOverflow));
    assert_eq!(chain.ballots.len(), 1);
    assert_eq!(cs.candidates[0].vote_count, u32::MAX);
}

#[test]
fn show_commands() {
    let (mut chain, mut cs, mut last) = setup();
    let r = run(&mut chain, &mut cs, &mut last, Command::ShowCandidateInfo(Some(1)), 0);
    assert_eq!(r, Ok(Reply::CandidateInfo(1)));
    let r = run(&mut chain, &mut cs, &mut last, Command::ShowCandidateInfo(Some(5)), 0);
    assert_eq!(r, Ok(Reply::CandidateNotFound));
    let r = run(&mut chain, &mut cs, &mut last, Command::ShowCandidateVotes(Some(5)), 0);
    assert_eq!(r, Ok(Reply::CandidateNotFound));
    let r = run(&mut chain, &mut cs, &mut last, Command::ShowAllCandidates, 0);
    assert_eq!(r, Ok(Reply::AllCandidates));
    let r = run(&mut chain, &mut cs, &mut last, Command::OpenConnection, 0);
    assert_eq!(r, Ok(Reply::NoAction));
    let r = run(&mut chain, &mut cs, &mut last, Command::SendChain, 0);
    assert_eq!(r, Ok(Reply::SendChain));
    let r = run(&mut chain, &mut cs, &mut last, Command::Empty, 0);
    assert_eq!(r, Ok(Reply::EmptyLine));
    let r = run(&mut chain, &mut cs, &mut last, Command::Unknown, 0);
    assert_eq!(r, Ok(Reply::UnknownCommand));
    assert_eq!(chain.ballots.len(), 1);
}

#[test]
fn parsed_line_drives_a_vote() {
    let (mut chain, mut cs, mut last) = setup();
    assert!(!lacks_candidate_id("OY_VER 1"));
    let cmd = parse_command("OY_VER 1");
    assert_eq!(run(&mut chain, &mut cs, &mut last, cmd, 5_000), Ok(Reply::Voted));
    assert_eq!(chain.count_votes(1), Some(1));
}

#[test]
fn received_ballot_is_counted_and_appended() {
    let (mut chain, mut cs, mut last) = setup();
    let mut other = Candidates::new();
    other.add_candidate(Candidate::new("Mehmet".to_string(), 1, 0));
    let mut peer = Ballotchain::new();
    peer.mine_genesis(1_000);
    let _ = &mut last;
    let mut peer_last = chain.ballots[0].hash.clone();
    peer.ballots[0] = chain.ballots[0].clone();
    assert_eq!(run(&mut peer, &mut other, &mut peer_last, Command::Vote(Some(1)), 3_000), Ok(Reply::Voted));
    let sent = peer.ballots[1].clone();
    assert_eq!(chain.can_receive_ballot(&cs, &sent), None);
    chain.receive_ballot(&mut cs, sent);
    assert_eq!(chain.ballots.len(), 2);
    assert_eq!(cs.candidates[0].vote_count, 1);
}

#[test]
fn received_ballot_out_of_order_cannot_be_received() {
    let (chain, mut cs, _) = setup();
    let stray = ballotchain::ballot::Ballot::new(5, 9_000, vec![1u8; 32], 2, 4, DIFFICULTY);
    assert_eq!(
        chain.can_receive_ballot(&cs, &stray),
        Some(StepError::Rejected(BlockValidationErr::MismatchedIndex))
    );
    cs.candidates[1].vote_count = u32::MAX;
    assert_eq!(chain.can_receive_ballot(&cs, &stray), Some(StepError::VoteCountOverflow));
}

#[test]
fn show_commands_can_be_carried_out() {
    let (chain, cs, last) = setup();
    assert_eq!(chain.step_error(&cs, &last, Command::ShowCandidateVotes(Some(1)), 0), None);
    assert_eq!(chain.step_error(&cs, &last, Command::ShowAllCandidates, 0), None);
}

#[test]
fn window_ballot_is_mined_for_candidate_zero() {

    let b = mine_window_ballot(vec![3u8; 32], 4_000);
    assert_eq!(b.index, WINDOW_BALLOT_INDEX);
    assert_eq!(b.index, 2);
    assert_eq!(b.voter_id, WINDOW_VOTER_ID);
    assert_eq!(b.voter_id, 365);
    assert_eq!(b.timestamp, 4_000);
    assert_eq!(b.prev_block_hash, vec![3u8; 32]);
    assert_eq!(b.voted_candidate_id, 0);
    assert_eq!(b.hash.len(), 32);
    assert!(check_difficulty(&b.hash, DIFFICULTY));
}

#[test]
fn counts_follow_the_chain() {
    // law: each candidate's count is its start count plus the ballots cast for it after genesis
    let (mut chain, mut cs, mut last) = setup();
    let base: Vec<u32> = cs.candidates.iter().map(|c| c.vote_count).collect();
    for (k, id) in [1u32, 2, 2, 1, 2].iter().enumerate() {
        let r = run(&mut chain, &mut cs, &mut last, Command::Vote(Some(*id)), 2_000 + k as u128);
        assert_eq!(r, Ok(Reply::Voted));
    }
    for (k, c) in cs.candidates.iter().enumerate() {
        let cast = chain.ballots[1..].iter().filter(|b| b.voted_candidate_id == c.candidate_id).count();
        assert_eq!(c.vote_count as usize, base[k] as usize + cast);
    }
}
