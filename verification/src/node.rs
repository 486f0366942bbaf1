//! The decisions a voting node takes: what each command read from the console does to the
//! chain and the candidates, and what is done with a ballot received from a peer. Reading the
//! console, the clock and the network, printing, and sending are left to the caller.

use vstd::prelude::*;

use crate::ballot::{ballot_bytes, mined_from, Ballot};
use crate::ballotchain::{
    block_check, cast_for, chain_valid, check_new, lemma_accepted_extension_valid,
    lemma_votes_for_counts_ballots, lemma_votes_for_push, votes_for, Ballotchain,
    BlockValidationErr,
};
use crate::bytes::{le_value, lemma_le_value_zeros, zero_hash};
use crate::hash::sha256_of;
use crate::candidate::Candidate;
use crate::candidates::{count_full, has_id, one_more_vote, Candidates};
use crate::command::Command;

verus! {

/// The difficulty a node mines its ballots with.
pub const DIFFICULTY: u128 = 0x000f_ffff_ffff_ffff_ffff_ffff_ffff_ffff;

/// The voter recorded in the first ballot of a chain.
pub const GENESIS_VOTER_ID: u32 = 362;

/// The voter recorded in the ballots a node casts from its console.
pub const CONSOLE_VOTER_ID: u32 = 123;

/// The index carried by the ballots cast from the voting window.
pub const WINDOW_BALLOT_INDEX: u32 = 2;

/// The voter recorded in the ballots cast from the voting window.
pub const WINDOW_VOTER_ID: u32 = 365;

/// What the caller is to do after a command.
#[derive(Debug, PartialEq, Eq, Structural)]
pub enum Reply {
    /// Print this number of votes.
    VoteCount(u32),
    /// Print that no such candidate exists.
    CandidateNotFound,
    /// Print every candidate with this id.
    CandidateInfo(u32),
    /// Print every candidate.
    AllCandidates,
    /// A ballot was cast and is now the last of the chain: print it and send it to the peers.
    Voted,
    /// Nothing to do.
    NoAction,
    /// Send every ballot of the chain to the peers.
    SendChain,
    /// The line held no command.
    EmptyLine,
    /// The first word of the line is no command.
    UnknownCommand,
}

/// Why a step could not be completed.
#[derive(Debug, PartialEq, Eq, Structural)]
pub enum StepError {
    /// The candidate id is not a `u32`.
    InvalidCandidateId,
    /// A count of votes would exceed `u32::MAX`.
    VoteCountOverflow,
    /// The chain is too long for the index of one more ballot to fit in a `u32`.
    TooManyBallots,
    /// The chain refused the ballot.
    Rejected(BlockValidationErr),
}

/// The candidate a command names, looked up in `cands`: with no candidates at all, none is
/// found (the id is never read); otherwise an id that is not a `u32` is an error, and a valid
/// one is found where some candidate has it.
pub open spec fn lookup(cands: Seq<Candidate>, id: Option<u32>) -> Result<Option<u32>, StepError> {
    if cands.len() == 0 {
        Ok(None)
    } else {
        match id {
            None => Err(StepError::InvalidCandidateId),
            Some(i) => if has_id(cands, i) {
                Ok(Some(i))
            } else {
                Ok(None)
            },
        }
    }
}

/// Why `command`, read at `timestamp`, cannot be carried out on the chain `chain`, the
/// candidates `cands` and the last hash `hash`, or `None` where it can. In order: an id that is
/// not a `u32` while candidates exist; a count of votes above `u32::MAX` to show; for a vote, a
/// chain too long for one more index, a ballot the chain would refuse (its index, timestamp and
/// previous hash decide that), or a candidate count that cannot grow.
pub open spec fn step_error(
    chain: Seq<Ballot>,
    cands: Seq<Candidate>,
    hash: Seq<u8>,
    command: Command,
    timestamp: u128,
) -> Option<StepError> {
    match command {
        Command::ShowCandidateVotes(id) => match lookup(cands, id) {
            Err(e) => Some(e),
            Ok(None) => None,
            Ok(Some(i)) => if votes_for(chain, i) <= u32::MAX {
                None
            } else {
                Some(StepError::VoteCountOverflow)
            },
        },
        Command::ShowCandidateInfo(id) => match lookup(cands, id) {
            Err(e) => Some(e),
            Ok(_) => None,
        },
        Command::Vote(id) => match lookup(cands, id) {
            Err(e) => Some(e),
            Ok(None) => None,
            Ok(Some(i)) => if chain.len() > u32::MAX {
                Some(StepError::TooManyBallots)
            } else {
                match check_new(chain, chain.len() as u32, timestamp, hash) {
                    Err(e) => Some(StepError::Rejected(e)),
                    Ok(()) => if count_full(cands, i) {
                        Some(StepError::VoteCountOverflow)
                    } else {
                        None
                    },
                }
            },
        },
        _ => None,
    }
}

/// The reply to a command that changes nothing (every command but `Vote`), where it can be
/// carried out.
pub open spec fn reply_of(chain: Seq<Ballot>, cands: Seq<Candidate>, command: Command) -> Reply {
    match command {
        Command::ShowCandidateVotes(id) => match lookup(cands, id) {
            Ok(Some(i)) => Reply::VoteCount(votes_for(chain, i) as u32),
            _ => Reply::CandidateNotFound,
        },
        Command::ShowCandidateInfo(id) => match lookup(cands, id) {
            Ok(Some(i)) => Reply::CandidateInfo(i),
            _ => Reply::CandidateNotFound,
        },
        Command::ShowAllCandidates => Reply::AllCandidates,
        Command::Vote(_) => Reply::NoAction,
        Command::OpenConnection => Reply::NoAction,
        Command::SendChain => Reply::SendChain,
        Command::Empty => Reply::EmptyLine,
        Command::Unknown => Reply::UnknownCommand,
    }
}

/// Whether `b` is what a node mines for the candidate `id` as ballot `index` of its chain, at
/// `timestamp`, after the hash `prev`.
pub open spec fn cast_ballot(b: Ballot, index: u32, timestamp: u128, prev: Seq<u8>, id: u32) -> bool {
    mined_from(b, index, timestamp, prev, 0, zero_hash(), CONSOLE_VOTER_ID, DIFFICULTY, id)
}

/// The effect of the command `Vote(id)`, where it can be carried out, from the chain `chain`,
/// the candidates `cands` and the last hash `hash` to `chain2`, `cands2`, `hash2` and the reply
/// `r`: where a candidate has the id, a ballot for it is mined after `hash` as the next ballot,
/// appended, and becomes the last hash, and each candidate with the id gets one more vote;
/// otherwise nothing changes.
pub open spec fn vote_step(
    chain: Seq<Ballot>,
    chain2: Seq<Ballot>,
    cands: Seq<Candidate>,
    cands2: Seq<Candidate>,
    hash: Seq<u8>,
    hash2: Seq<u8>,
    id: Option<u32>,
    timestamp: u128,
    r: Reply,
) -> bool {
    match lookup(cands, id) {
        Ok(Some(i)) => {
            &&& r == Reply::Voted
            &&& chain2.len() == chain.len() + 1
            &&& chain2.drop_last() == chain
            &&& cast_ballot(chain2.last(), chain.len() as u32, timestamp, hash, i)
            &&& hash2 == chain2.last().hash@
            &&& one_more_vote(cands, cands2, i)
        },
        _ => r == Reply::NoAction && chain2 == chain && cands2 == cands && hash2 == hash,
    }
}

/// The effect of `command`, read at `timestamp`, where it can be carried out: a vote as
/// `vote_step` says; any other command changes nothing and is answered by `reply_of`.
pub open spec fn command_step(
    command: Command,
    chain: Seq<Ballot>,
    chain2: Seq<Ballot>,
    cands: Seq<Candidate>,
    cands2: Seq<Candidate>,
    hash: Seq<u8>,
    hash2: Seq<u8>,
    timestamp: u128,
    r: Reply,
) -> bool {
    match command {
        Command::Vote(id) => vote_step(chain, chain2, cands, cands2, hash, hash2, id, timestamp, r),
        _ => {
            &&& r == reply_of(chain, cands, command)
            &&& chain2 == chain
            &&& cands2 == cands
            &&& hash2 == hash
        },
    }
}

/// Whether a ballot `b` from a peer can be received on the chain `chain` with the candidates
/// `cands`: each candidate with its id can take one more vote, and the chain accepts it.
pub open spec fn can_receive(chain: Seq<Ballot>, cands: Seq<Candidate>, b: Ballot) -> bool {
    !count_full(cands, b.voted_candidate_id) && block_check(chain, b) is Ok
}

/// The effect of receiving `b` from a peer: each candidate with its id gets one more vote, and
/// `b` is appended to the chain.
pub open spec fn receive_step(
    chain: Seq<Ballot>,
    chain2: Seq<Ballot>,
    cands: Seq<Candidate>,
    cands2: Seq<Candidate>,
    b: Ballot,
) -> bool {
    one_more_vote(cands, cands2, b.voted_candidate_id) && chain2 == chain.push(b)
}

/// The number of ballots after the first (the one mined when the chain was started) cast for
/// the candidate `id`.
pub open spec fn votes_after_genesis(chain: Seq<Ballot>, id: u32) -> nat {
    votes_for(chain.skip(1), id)
}

/// Whether each candidate's count is its count `base` when the chain was started plus the
/// ballots cast for it since.
pub open spec fn counts_agree(chain: Seq<Ballot>, cands: Seq<Candidate>, base: Seq<int>) -> bool {
    &&& cands.len() == base.len()
    &&& forall|k: int|
        0 <= k < cands.len() ==> (#[trigger] cands[k]).vote_count == base[k]
            + votes_after_genesis(chain, cands[k].candidate_id)
}

/// The candidate a command names, looked up in `candidates`.
fn find_candidate(candidates: &Candidates, id: Option<u32>) -> (r: Result<Option<u32>, StepError>)
    ensures
        r == lookup(candidates.candidates@, id),
{
    if candidates.candidates.len() == 0 {
        return Ok(None);
    }
    match id {
        None => Err(StepError::InvalidCandidateId),
        Some(i) => if candidates.contains_id(i) {
            Ok(Some(i))
        } else {
            Ok(None)
        },
    }
}

impl Ballotchain {
    /// Why `command`, read at `timestamp`, cannot be carried out, or `None` where it can: see
    /// `step_error`.
    pub fn step_error(
        &self,
        candidates: &Candidates,
        last_hash: &Vec<u8>,
        command: Command,
        timestamp: u128,
    ) -> (r: Option<StepError>)
        ensures
            r == step_error(self.ballots@, candidates.candidates@, last_hash@, command, timestamp),
    {
        match command {
            Command::ShowCandidateVotes(id) => match find_candidate(candidates, id) {
                Err(e) => Some(e),
                Ok(None) => None,
                Ok(Some(i)) => match self.count_votes(i) {
                    Some(_) => None,
                    None => Some(StepError::VoteCountOverflow),
                },
            },
            Command::ShowCandidateInfo(id) => match find_candidate(candidates, id) {
                Err(e) => Some(e),
                Ok(_) => None,
            },
            Command::Vote(id) => match find_candidate(candidates, id) {
                Err(e) => Some(e),
                Ok(None) => None,
                Ok(Some(i)) => {
                    if self.ballots.len() > 0xffff_ffff {
                        return Some(StepError::TooManyBallots);
                    }
                    match self.check_new_block(self.ballots.len() as u32, timestamp, last_hash) {
                        Err(e) => Some(StepError::Rejected(e)),
                        Ok(()) => if candidates.can_count(i) {
                            None
                        } else {
                            Some(StepError::VoteCountOverflow)
                        },
                    }
                },
            },
            _ => None,
        }
    }

    /// Carries out `command`, read from the console at `timestamp`, on the chain, the
    /// candidates and the last hash mined; returns what the caller is to do. The command must
    /// be one that can be carried out (see `step_error`).
    pub fn handle_command(
        &mut self,
        candidates: &mut Candidates,
        last_hash: &mut Vec<u8>,
        command: Command,
        timestamp: u128,
    ) -> (r: Reply)
        requires
            step_error(
                old(self).ballots@,
                old(candidates).candidates@,
                old(last_hash)@,
                command,
                timestamp,
            ) is None,
        ensures
            command_step(
                command,
                old(self).ballots@,
                final(self).ballots@,
                old(candidates).candidates@,
                final(candidates).candidates@,
                old(last_hash)@,
                final(last_hash)@,
                timestamp,
                r,
            ),
    {
        match command {
            Command::ShowCandidateVotes(id) => match find_candidate(candidates, id) {
                Ok(Some(i)) => match self.count_votes(i) {
                    Some(n) => Reply::VoteCount(n),
                    None => Reply::CandidateNotFound,
                },
                _ => Reply::CandidateNotFound,
            },
            Command::ShowCandidateInfo(id) => match find_candidate(candidates, id) {
                Ok(Some(i)) => Reply::CandidateInfo(i),
                _ => Reply::CandidateNotFound,
            },
            Command::ShowAllCandidates => Reply::AllCandidates,
            Command::Vote(id) => self.cast_vote(candidates, last_hash, id, timestamp),
            Command::OpenConnection => Reply::NoAction,
            Command::SendChain => Reply::SendChain,
            Command::Empty => Reply::EmptyLine,
            Command::Unknown => Reply::UnknownCommand,
        }
    }

    /// Casts a vote from the console for the candidate `id` at `timestamp`: see `vote_step`.
    fn cast_vote(
        &mut self,
        candidates: &mut Candidates,
        last_hash: &mut Vec<u8>,
        id: Option<u32>,
        timestamp: u128,
    ) -> (r: Reply)
        requires
            step_error(
                old(self).ballots@,
                old(candidates).candidates@,
                old(last_hash)@,
                Command::Vote(id),
                timestamp,
            ) is None,
        ensures
            vote_step(
                old(self).ballots@,
                final(self).ballots@,
                old(candidates).candidates@,
                final(candidates).candidates@,
                old(last_hash)@,
                final(last_hash)@,
                id,
                timestamp,
                r,
            ),
    {
        let i = match find_candidate(candidates, id) {
            Ok(Some(i)) => i,
            _ => {
                return Reply::NoAction;
            },
        };
        let new_index = self.ballots.len() as u32;
        let ghost chain = self.ballots@;
        let ghost prev = last_hash@;
        let mut ballot = Ballot::new(
            new_index,
            timestamp,
            last_hash.clone(),
            0,
            CONSOLE_VOTER_ID,
            DIFFICULTY,
        );
        ballot.vote(i);
        assert(cast_ballot(ballot, chain.len() as u32, timestamp, prev, i));
        *last_hash = ballot.hash.clone();
        let ghost cast = ballot;
        let pushed = self.update_with_block(ballot);
        assert(pushed is Ok);
        assert(self.ballots@.drop_last() =~= chain);
        assert(self.ballots@.last() == cast);
        let counted = candidates.record_vote(i);
        assert(counted);
        Reply::Voted
    }

    /// Counts a ballot received from a peer: each candidate with its id gets one more vote, then
    /// the ballot is appended to the chain. The ballot must be one that can be received (see
    /// `can_receive` and `can_receive_ballot`).
    pub fn receive_ballot(&mut self, candidates: &mut Candidates, ballot: Ballot)
        requires
            can_receive(old(self).ballots@, old(candidates).candidates@, ballot),
        ensures
            receive_step(
                old(self).ballots@,
                final(self).ballots@,
                old(candidates).candidates@,
                final(candidates).candidates@,
                ballot,
            ),
    {
        let counted = candidates.record_vote(ballot.voted_candidate_id);
        assert(counted);
        let pushed = self.update_with_block(ballot);
        assert(pushed is Ok);
    }

    /// Why a ballot from a peer cannot be received, or `None` where it can: a candidate count
    /// that cannot grow is reported before a refusal by the chain.
    pub fn can_receive_ballot(&self, candidates: &Candidates, ballot: &Ballot) -> (r: Option<
        StepError,
    >)
        ensures
            r is None <==> can_receive(self.ballots@, candidates.candidates@, *ballot),
            count_full(candidates.candidates@, ballot.voted_candidate_id) ==> r == Some(
                StepError::VoteCountOverflow,
            ),
            !count_full(candidates.candidates@, ballot.voted_candidate_id) ==> match block_check(
                self.ballots@,
                *ballot,
            ) {
                Err(e) => r == Some(StepError::Rejected(e)),
                Ok(()) => r is None,
            },
    {
        if !candidates.can_count(ballot.voted_candidate_id) {
            return Some(StepError::VoteCountOverflow);
        }
        match self.check_block(ballot) {
            Err(e) => Some(StepError::Rejected(e)),
            Ok(()) => None,
        }
    }

    /// Mines the first ballot of an empty chain at `timestamp`, for candidate 0, appends it and
    /// returns its hash.
    pub fn mine_genesis(&mut self, timestamp: u128) -> (r: Vec<u8>)
        requires
            old(self).ballots@.len() == 0,
        ensures
            final(self).ballots@.len() == 1,
            mined_from(
                final(self).ballots@[0],
                0,
                timestamp,
                zero_hash(),
                0,
                zero_hash(),
                GENESIS_VOTER_ID,
                DIFFICULTY,
                0,
            ),
            r@ == final(self).ballots@[0].hash@,
            final(self).ballots@[0].index == 0,
            final(self).ballots@[0].timestamp == timestamp,
            final(self).ballots@[0].prev_block_hash@ == zero_hash(),
            final(self).ballots@[0].voter_id == 362,
            final(self).ballots@[0].difficulty == 0x000f_ffff_ffff_ffff_ffff_ffff_ffff_ffff,
            final(self).ballots@[0].hash@.len() == 32,
            0x000f_ffff_ffff_ffff_ffff_ffff_ffff_ffffu128 > le_value(
                final(self).ballots@[0].hash@.subrange(16, 32),
            ),
    {
        let mut genesis = Ballot::new(0, timestamp, zero_hash_bytes(), 0, GENESIS_VOTER_ID, DIFFICULTY);
        genesis.vote(0);
        let hash = genesis.hash.clone();
        let ghost cast = genesis;
        let pushed = self.update_with_block(genesis);
        assert(pushed is Ok);
        assert(self.ballots@[0] == cast);
        proof {
            lemma_mined_from_zero_start(cast, 0, timestamp, zero_hash(), GENESIS_VOTER_ID, DIFFICULTY, 0);
        }
        hash
    }
}

/// Mines the ballot that the voting window's Vote button casts at `timestamp` after the hash
/// `prev`: ballot `WINDOW_BALLOT_INDEX` by `WINDOW_VOTER_ID`, for candidate 0.
pub fn mine_window_ballot(prev: Vec<u8>, timestamp: u128) -> (b: Ballot)
    ensures
        mined_from(
            b,
            WINDOW_BALLOT_INDEX,
            timestamp,
            prev@,
            0,
            zero_hash(),
            WINDOW_VOTER_ID,
            DIFFICULTY,
            0,
        ),
        b.index == 2,
        b.timestamp == timestamp,
        b.prev_block_hash@ == prev@,
        b.voter_id == 365,
        b.difficulty == 0x000f_ffff_ffff_ffff_ffff_ffff_ffff_ffff,
        b.voted_candidate_id == 0,
        b.hash@.len() == 32,
        0x000f_ffff_ffff_ffff_ffff_ffff_ffff_ffffu128 > le_value(b.hash@.subrange(16, 32)),
{
    let ghost p = prev@;
    let mut ballot = Ballot::new(WINDOW_BALLOT_INDEX, timestamp, prev, 0, WINDOW_VOTER_ID, DIFFICULTY);
    ballot.vote(0);
    proof {
        lemma_mined_from_zero_start(ballot, WINDOW_BALLOT_INDEX, timestamp, p, WINDOW_VOTER_ID, DIFFICULTY, 0);
    }
    ballot
}

/// 32 zero bytes.
pub fn zero_hash_bytes() -> (r: Vec<u8>)
    ensures
        r@ == zero_hash(),
{
    let r: Vec<u8> = vec![0u8; 32];
    assert(r@ =~= zero_hash());
    r
}

/// Right after the first ballot is mined, every count agrees with the chain, taking the counts
/// at that moment as the base.
pub proof fn lemma_counts_agree_at_start(chain: Seq<Ballot>, cands: Seq<Candidate>)
    requires
        chain.len() == 1,
    ensures
        counts_agree(chain, cands, Seq::new(cands.len(), |k: int| cands[k].vote_count as int)),
{
    assert(chain.skip(1) =~= Seq::<Ballot>::empty());
}

/// Appending `b` after the first ballot while giving each candidate with `b`'s id one more vote
/// keeps the counts in agreement with the chain.
pub proof fn lemma_counted_ballot_keeps_counts(
    chain: Seq<Ballot>,
    cands: Seq<Candidate>,
    cands2: Seq<Candidate>,
    b: Ballot,
    base: Seq<int>,
)
    requires
        chain.len() >= 1,
        counts_agree(chain, cands, base),
        one_more_vote(cands, cands2, b.voted_candidate_id),
    ensures
        counts_agree(chain.push(b), cands2, base),
{
    let ext = chain.push(b);
    assert(ext.skip(1) =~= chain.skip(1).push(b));
    assert forall|k: int| 0 <= k < cands2.len() implies (#[trigger] cands2[k]).vote_count
        == base[k] + votes_after_genesis(ext, cands2[k].candidate_id) by {
        assert(cands2[k].candidate_id == cands[k].candidate_id);
        lemma_votes_for_push(chain.skip(1), b, cands[k].candidate_id);
    }
}

/// A vote carried out appends exactly one ballot, keeps a valid chain valid, and adds one vote
/// for the candidate where mining found a nonce; otherwise the ballot keeps candidate 0, the
/// candidate a fresh ballot holds. No other candidate gains a vote.
pub proof fn lemma_vote_step_counts(
    chain: Seq<Ballot>,
    chain2: Seq<Ballot>,
    cands: Seq<Candidate>,
    cands2: Seq<Candidate>,
    hash: Seq<u8>,
    hash2: Seq<u8>,
    i: u32,
    other: u32,
    timestamp: u128,
)
    requires
        vote_step(chain, chain2, cands, cands2, hash, hash2, Some(i), timestamp, Reply::Voted),
        step_error(chain, cands, hash, Command::Vote(Some(i)), timestamp) is None,
    ensures
        chain2 == chain.push(chain2.last()),
        chain_valid(chain) ==> chain_valid(chain2),
        votes_for(chain2, i) == votes_for(chain, i) + if chain2.last().voted_candidate_id == i {
            1nat
        } else {
            0nat
        },
        other != i && other != 0 ==> votes_for(chain2, other) == votes_for(chain, other),
        chain2.last().voted_candidate_id == i || chain2.last().voted_candidate_id == 0,
{
    assert(chain2 =~= chain.push(chain2.last()));
    let b = chain2.last();
    lemma_votes_for_push(chain, b, i);
    lemma_votes_for_push(chain, b, other);
    if chain_valid(chain) {
        assert(block_check(chain, b) is Ok);
        lemma_accepted_extension_valid(chain, b);
    }
}

/// Each console command carried out keeps every candidate's count equal to its base plus the
/// ballots cast for it after the first, provided that a vote found a nonce (so its ballot
/// records the candidate voted for).
pub proof fn lemma_command_keeps_counts(
    command: Command,
    chain: Seq<Ballot>,
    chain2: Seq<Ballot>,
    cands: Seq<Candidate>,
    cands2: Seq<Candidate>,
    hash: Seq<u8>,
    hash2: Seq<u8>,
    timestamp: u128,
    r: Reply,
    base: Seq<int>,
)
    requires
        command_step(command, chain, chain2, cands, cands2, hash, hash2, timestamp, r),
        chain.len() >= 1,
        counts_agree(chain, cands, base),
        r == Reply::Voted ==> (command matches Command::Vote(Some(i))
            && chain2.last().voted_candidate_id == i),
    ensures
        counts_agree(chain2, cands2, base),
{
    if let Command::Vote(Some(i)) = command {
        if lookup(cands, Some(i)) == Ok::<Option<u32>, StepError>(Some(i)) {
            assert(chain2 =~= chain.push(chain2.last()));
            lemma_counted_ballot_keeps_counts(chain, cands, cands2, chain2.last(), base);
        }
    }
}

/// A received ballot keeps every candidate's count equal to its base plus the ballots cast for
/// it after the first.
pub proof fn lemma_received_ballot_keeps_counts(
    chain: Seq<Ballot>,
    chain2: Seq<Ballot>,
    cands: Seq<Candidate>,
    cands2: Seq<Candidate>,
    b: Ballot,
    base: Seq<int>,
)
    requires
        receive_step(chain, chain2, cands, cands2, b),
        chain.len() >= 1,
        counts_agree(chain, cands, base),
    ensures
        counts_agree(chain2, cands2, base),
{
    lemma_counted_ballot_keeps_counts(chain, cands, cands2, b, base);
}

/// The ballot `b` as mining tried it with nonce `nonce`: before any candidate was recorded,
/// a ballot cast from the console holds candidate 0.
pub open spec fn attempt(b: Ballot, nonce: u64) -> Ballot {
    Ballot { nonce: nonce, voted_candidate_id: 0, ..b }
}

/// A console vote for a candidate that exists, carried out, appends one ballot that is the next
/// of the chain: index the chain's length, the given timestamp, the last hash as previous hash,
/// the console voter and the node's difficulty `DIFFICULTY`. Its 32-byte hash meets
/// `DIFFICULTY` and becomes the last hash. Mining started from candidate 0 and nonce 0: where
/// the hash of the ballot's bytes (with candidate 0) meets `DIFFICULTY`, that is the stored
/// hash and the candidate is recorded, and no smaller nonce met it; otherwise every nonce below
/// `u64::MAX` failed. Each candidate with the id gets one more vote, no other.
pub proof fn lemma_console_vote_mines_at_node_difficulty(
    chain: Seq<Ballot>,
    chain2: Seq<Ballot>,
    cands: Seq<Candidate>,
    cands2: Seq<Candidate>,
    hash: Seq<u8>,
    hash2: Seq<u8>,
    timestamp: u128,
    r: Reply,
    i: u32,
)
    requires
        step_error(chain, cands, hash, Command::Vote(Some(i)), timestamp) is None,
        command_step(Command::Vote(Some(i)), chain, chain2, cands, cands2, hash, hash2, timestamp, r),
        exists|k: int| 0 <= k < cands.len() && #[trigger] cands[k].candidate_id == i,
    ensures
        r == Reply::Voted,
        chain2.len() == chain.len() + 1,
        chain2.drop_last() == chain,
        chain2.last().index == chain.len(),
        chain2.last().timestamp == timestamp,
        chain2.last().prev_block_hash@ == hash,
        chain2.last().voter_id == 123,
        chain2.last().difficulty == 0x000f_ffff_ffff_ffff_ffff_ffff_ffff_ffff,
        chain2.last().hash@.len() == 32,
        DIFFICULTY > le_value(chain2.last().hash@.subrange(16, 32)),
        hash2 == chain2.last().hash@,
        forall|m: u64|
            m < chain2.last().nonce ==> DIFFICULTY <= le_value(
                sha256_of(ballot_bytes(#[trigger] attempt(chain2.last(), m))).subrange(16, 32),
            ),
        DIFFICULTY > le_value(
            sha256_of(ballot_bytes(attempt(chain2.last(), chain2.last().nonce))).subrange(
                16,
                32,
            ),
        ) ==> {
            &&& chain2.last().hash@ == sha256_of(
                ballot_bytes(attempt(chain2.last(), chain2.last().nonce)),
            )
            &&& chain2.last().voted_candidate_id == i
        },
        DIFFICULTY <= le_value(
            sha256_of(ballot_bytes(attempt(chain2.last(), chain2.last().nonce))).subrange(
                16,
                32,
            ),
        ) ==> {
            &&& chain2.last().nonce == u64::MAX - 1
            &&& chain2.last().voted_candidate_id == 0
        },
        cands2.len() == cands.len(),
        forall|k: int|
            0 <= k < cands.len() ==> (#[trigger] cands2[k]).vote_count == cands[k].vote_count + (
            if cands[k].candidate_id == i {
                1int
            } else {
                0int
            }) && cands2[k].candidate_id == cands[k].candidate_id,
{
    assert(cands.len() > 0);
    assert(lookup(cands, Some(i)) == Ok::<Option<u32>, StepError>(Some(i)));
    let b = chain2.last();
    assert forall|m: u64| m < b.nonce implies DIFFICULTY <= le_value(
        sha256_of(ballot_bytes(#[trigger] attempt(b, m))).subrange(16, 32),
    ) by {
        assert(cast_ballot(b, chain.len() as u32, timestamp, hash, i));
        assert(!crate::ballot::meets_difficulty(
            crate::ballot::digest_of(chain.len() as u32, timestamp, hash, m, 0, DIFFICULTY),
            DIFFICULTY,
        ));
        assert(ballot_bytes(attempt(b, m)) == crate::ballot::hash_input(
            chain.len() as u32,
            timestamp,
            hash,
            m,
            0,
            DIFFICULTY,
        ));
    }
    if !(DIFFICULTY > le_value(
        sha256_of(ballot_bytes(attempt(b, b.nonce))).subrange(16, 32),
    )) {
        lemma_le_value_zeros(zero_hash().subrange(16, 32));
    }
}

/// Showing the votes of a candidate that exists, where it can be done, answers the number of
/// ballots in the chain cast for that candidate and changes nothing.
pub proof fn lemma_show_votes_counts_ballots(
    chain: Seq<Ballot>,
    chain2: Seq<Ballot>,
    cands: Seq<Candidate>,
    cands2: Seq<Candidate>,
    hash: Seq<u8>,
    hash2: Seq<u8>,
    timestamp: u128,
    r: Reply,
    i: u32,
)
    requires
        step_error(chain, cands, hash, Command::ShowCandidateVotes(Some(i)), timestamp) is None,
        command_step(
            Command::ShowCandidateVotes(Some(i)),
            chain,
            chain2,
            cands,
            cands2,
            hash,
            hash2,
            timestamp,
            r,
        ),
        exists|k: int| 0 <= k < cands.len() && #[trigger] cands[k].candidate_id == i,
    ensures
        chain.filter(cast_for(i)).len() <= u32::MAX,
        r == Reply::VoteCount(chain.filter(cast_for(i)).len() as u32),
        chain2 == chain,
        cands2 == cands,
        hash2 == hash,
{
    lemma_votes_for_counts_ballots(chain, i);
    assert(lookup(cands, Some(i)) == Ok::<Option<u32>, StepError>(Some(i)));
}

/// Showing the votes of an existing candidate is refused exactly when more than `u32::MAX`
/// ballots of the chain are cast for it.
pub proof fn lemma_show_votes_refused_exactly_on_overflow(
    chain: Seq<Ballot>,
    cands: Seq<Candidate>,
    hash: Seq<u8>,
    timestamp: u128,
    i: u32,
)
    requires
        exists|k: int| 0 <= k < cands.len() && #[trigger] cands[k].candidate_id == i,
    ensures
        step_error(chain, cands, hash, Command::ShowCandidateVotes(Some(i)), timestamp) is None
            <==> chain.filter(cast_for(i)).len() <= u32::MAX,
{
    lemma_votes_for_counts_ballots(chain, i);
    assert(lookup(cands, Some(i)) == Ok::<Option<u32>, StepError>(Some(i)));
}

/// With candidates listed, asking for the candidate with a valid id `i` finds it exactly when
/// some candidate has the id `i`; otherwise the answer is that no such candidate exists. Nothing
/// changes.
pub proof fn lemma_show_info_finds_exactly_the_id(
    chain: Seq<Ballot>,
    chain2: Seq<Ballot>,
    cands: Seq<Candidate>,
    cands2: Seq<Candidate>,
    hash: Seq<u8>,
    hash2: Seq<u8>,
    timestamp: u128,
    r: Reply,
    i: u32,
)
    requires
        cands.len() > 0,
        command_step(
            Command::ShowCandidateInfo(Some(i)),
            chain,
            chain2,
            cands,
            cands2,
            hash,
            hash2,
            timestamp,
            r,
        ),
    ensures
        step_error(chain, cands, hash, Command::ShowCandidateInfo(Some(i)), timestamp) is None,
        (exists|k: int| 0 <= k < cands.len() && #[trigger] cands[k].candidate_id == i) ==> r
            == Reply::CandidateInfo(i),
        !(exists|k: int| 0 <= k < cands.len() && #[trigger] cands[k].candidate_id == i) ==> r
            == Reply::CandidateNotFound,
        chain2 == chain,
        cands2 == cands,
        hash2 == hash,
{
}

/// With candidates listed, a console vote for a valid id that no candidate has can always be
/// carried out, and changes nothing.
pub proof fn lemma_vote_for_absent_id_changes_nothing(
    chain: Seq<Ballot>,
    chain2: Seq<Ballot>,
    cands: Seq<Candidate>,
    cands2: Seq<Candidate>,
    hash: Seq<u8>,
    hash2: Seq<u8>,
    timestamp: u128,
    r: Reply,
    i: u32,
)
    requires
        cands.len() > 0,
        !(exists|k: int| 0 <= k < cands.len() && #[trigger] cands[k].candidate_id == i),
        command_step(Command::Vote(Some(i)), chain, chain2, cands, cands2, hash, hash2, timestamp, r),
    ensures
        step_error(chain, cands, hash, Command::Vote(Some(i)), timestamp) is None,
        r == Reply::NoAction,
        chain2 == chain,
        cands2 == cands,
        hash2 == hash,
{
}

/// A console vote for a candidate that exists can be carried out exactly when: the chain has
/// room for one more index; the ballot it would append is one the chain accepts (on an empty
/// chain the last hash is the zero hash; otherwise the timestamp is later than the last
/// ballot's, and the last hash is the last ballot's hash or is not the zero hash); and no
/// candidate with the id has a full count.
pub proof fn lemma_console_vote_allowed_exactly_when(
    chain: Seq<Ballot>,
    cands: Seq<Candidate>,
    hash: Seq<u8>,
    timestamp: u128,
    i: u32,
)
    requires
        exists|k: int| 0 <= k < cands.len() && #[trigger] cands[k].candidate_id == i,
    ensures
        step_error(chain, cands, hash, Command::Vote(Some(i)), timestamp) is None <==> {
            &&& chain.len() <= u32::MAX
            &&& chain.len() == 0 ==> hash == zero_hash()
            &&& chain.len() > 0 ==> {
                &&& timestamp > chain.last().timestamp
                &&& (hash == chain.last().hash@ || hash != zero_hash())
            }
            &&& forall|k: int|
                0 <= k < cands.len() && #[trigger] cands[k].candidate_id == i
                    ==> cands[k].vote_count < u32::MAX
        },
{
    assert(cands.len() > 0);
    assert(lookup(cands, Some(i)) == Ok::<Option<u32>, StepError>(Some(i)));
}

/// The node's constants: its difficulty, and the voters and index its ballots carry.
pub proof fn lemma_node_constants()
    ensures
        DIFFICULTY == 0x000f_ffff_ffff_ffff_ffff_ffff_ffff_ffff,
        GENESIS_VOTER_ID == 362,
        CONSOLE_VOTER_ID == 123,
        WINDOW_BALLOT_INDEX == 2,
        WINDOW_VOTER_ID == 365,
{
}

/// A ballot mined from a fresh one (candidate 0, a hash of 32 zero bytes) at a positive
/// difficulty keeps that difficulty, and ends with a 32-byte hash that meets it: the mined
/// hash where mining found a nonce, the zero hash (which meets any positive difficulty)
/// otherwise.
pub proof fn lemma_mined_from_zero_start(
    r: Ballot,
    index: u32,
    timestamp: u128,
    prev: Seq<u8>,
    voter: u32,
    difficulty: u128,
    id: u32,
)
    requires
        mined_from(r, index, timestamp, prev, 0, zero_hash(), voter, difficulty, id),
        difficulty > 0,
    ensures
        r.index == index,
        r.timestamp == timestamp,
        r.prev_block_hash@ == prev,
        r.voter_id == voter,
        r.difficulty == difficulty,
        r.hash@.len() == 32,
        difficulty > le_value(r.hash@.subrange(16, 32)),
        r.voted_candidate_id == id || r.voted_candidate_id == 0,
{
    if !crate::ballot::meets_difficulty(
        crate::ballot::digest_of(index, timestamp, prev, r.nonce, 0, difficulty),
        difficulty,
    ) {
        lemma_le_value_zeros(zero_hash().subrange(16, 32));
    }
}

/// A ballot received from a peer is appended as the chain's new last ballot, unchanged, and
/// each candidate with its id gets one more vote, no other; names and ids stay.
pub proof fn lemma_received_ballot_appended_and_counted(
    chain: Seq<Ballot>,
    chain2: Seq<Ballot>,
    cands: Seq<Candidate>,
    cands2: Seq<Candidate>,
    b: Ballot,
)
    requires
        receive_step(chain, chain2, cands, cands2, b),
    ensures
        chain2.len() == chain.len() + 1,
        chain2.last() == b,
        forall|k: int| 0 <= k < chain.len() ==> chain2[k] == chain[k],
        cands2.len() == cands.len(),
        forall|k: int|
            0 <= k < cands.len() ==> {
                &&& (#[trigger] cands2[k]).vote_count == cands[k].vote_count + (
                if cands[k].candidate_id == b.voted_candidate_id {
                    1int
                } else {
                    0int
                })
                &&& cands2[k].candidate_id == cands[k].candidate_id
                &&& cands2[k].name@ == cands[k].name@
            },
{
}

} // verus!
