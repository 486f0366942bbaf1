//! The chain of ballots and the rules a new ballot must meet to join it.

use vstd::prelude::*;

use crate::ballot::Ballot;
use crate::bytes::zero_hash;

verus! {

/// Why a ballot was refused.
#[derive(Debug, PartialEq, Eq, Structural)]
pub enum BlockValidationErr {
    MismatchedIndex,
    InvalidHash,
    AchronologicalTimestamp,
    MismatchedPreviousHash,
    InvalidGenesisBlockFormat,
    InvalidInput,
    InsufficientInputValue,
}

/// The ballots accepted so far, in order.
pub struct Ballotchain {
    /// Stores all the ballots (blocks) which are accepted as votes.
    pub ballots: Vec<Ballot>,
}

/// The verdict on appending, to the chain `chain`, a ballot with the given index, timestamp and
/// previous hash: the index must be the chain's length (as a `u32`); the first ballot must name
/// the zero hash as its predecessor; a later one must be strictly newer than the last ballot,
/// and may name the zero hash as predecessor only where that is the last ballot's hash.
pub open spec fn check_new(chain: Seq<Ballot>, index: u32, timestamp: u128, prev: Seq<u8>) -> Result<
    (),
    BlockValidationErr,
> {
    if index != chain.len() as u32 {
        Err(BlockValidationErr::MismatchedIndex)
    } else if chain.len() != 0 {
        let last = chain.last();
        if timestamp <= last.timestamp {
            Err(BlockValidationErr::AchronologicalTimestamp)
        } else if prev != last.hash@ && prev == zero_hash() {
            Err(BlockValidationErr::MismatchedPreviousHash)
        } else {
            Ok(())
        }
    } else if prev != zero_hash() {
        Err(BlockValidationErr::InvalidGenesisBlockFormat)
    } else {
        Ok(())
    }
}

/// The verdict on appending `b` to the chain `chain`.
pub open spec fn block_check(chain: Seq<Ballot>, b: Ballot) -> Result<(), BlockValidationErr> {
    check_new(chain, b.index, b.timestamp, b.prev_block_hash@)
}

/// A chain that `update_with_block` could have built: every ballot carries its position, the
/// first names the zero hash as predecessor, timestamps strictly increase, and no later
/// ballot names the zero hash unless that is its predecessor's hash.
pub open spec fn chain_valid(chain: Seq<Ballot>) -> bool {
    &&& forall|k: int| 0 <= k < chain.len() ==> #[trigger] chain[k].index == k as u32
    &&& chain.len() > 0 ==> chain[0].prev_block_hash@ == zero_hash()
    &&& forall|k: int|
        0 < k < chain.len() ==> {
            &&& #[trigger] chain[k].timestamp > chain[k - 1].timestamp
            &&& (chain[k].prev_block_hash@ == chain[k - 1].hash@ || chain[k].prev_block_hash@
                != zero_hash())
        }
}

impl Ballotchain {
    /// An empty chain.
    pub fn new() -> (r: Self)
        ensures
            r.ballots@ == Seq::<Ballot>::empty(),
    {
        Ballotchain { ballots: Vec::new() }
    }

    /// The verdict `check_new` on appending a ballot with the given index, timestamp and previous
    /// hash.
    pub fn check_new_block(&self, index: u32, timestamp: u128, prev: &Vec<u8>) -> (r: Result<
        (),
        BlockValidationErr,
    >)
        ensures
            r == check_new(self.ballots@, index, timestamp, prev@),
    {
        let i = self.ballots.len();
        let zero: Vec<u8> = vec![0u8; 32];
        assert(zero@ =~= zero_hash());
        if index != #[verifier::truncate] (i as u32) {
            Err(BlockValidationErr::MismatchedIndex)
        } else if i != 0 {
            let prev_block = &self.ballots[i - 1];
            if timestamp <= prev_block.timestamp {
                Err(BlockValidationErr::AchronologicalTimestamp)
            } else if !bytes_equal(prev, &prev_block.hash) && bytes_equal(prev, &zero) {
                Err(BlockValidationErr::MismatchedPreviousHash)
            } else {
                Ok(())
            }
        } else if !bytes_equal(prev, &zero) {
            Err(BlockValidationErr::InvalidGenesisBlockFormat)
        } else {
            Ok(())
        }
    }

    /// The verdict `block_check` on appending `ballot`.
    pub fn check_block(&self, ballot: &Ballot) -> (r: Result<(), BlockValidationErr>)
        ensures
            r == block_check(self.ballots@, *ballot),
    {
        self.check_new_block(ballot.index, ballot.timestamp, &ballot.prev_block_hash)
    }

    /// Appends `ballot` if `block_check` accepts it; otherwise leaves the chain as it is and
    /// returns the reason.
    pub fn update_with_block(&mut self, ballot: Ballot) -> (r: Result<(), BlockValidationErr>)
        ensures
            r == block_check(old(self).ballots@, ballot),
            r is Ok ==> final(self).ballots@ == old(self).ballots@.push(ballot),
            r is Err ==> final(self).ballots@ == old(self).ballots@,
            chain_valid(old(self).ballots@) ==> chain_valid(final(self).ballots@),
    {
        match self.check_block(&ballot) {
            Err(e) => {
                return Err(e);
            },
            Ok(()) => {},
        }
        proof {
            if chain_valid(self.ballots@) {
                lemma_accepted_extension_valid(self.ballots@, ballot);
            }
        }
        self.ballots.push(ballot);
        Ok(())
    }
}

/// Whether two byte strings are equal.
fn bytes_equal(a: &Vec<u8>, b: &Vec<u8>) -> (r: bool)
    ensures
        r == (a@ == b@),
{
    if a.len() != b.len() {
        return false;
    }
    let mut i: usize = 0;
    while i < a.len()
        invariant
            a@.len() == b@.len(),
            i <= a@.len(),
            forall|k: int| 0 <= k < i ==> a@[k] == b@[k],
        decreases a@.len() - i,
    {
        if a[i] != b[i] {
            return false;
        }
        i = i + 1;
    }
    assert(a@ =~= b@);
    true
}

/// The empty chain is valid.
pub proof fn lemma_empty_chain_valid()
    ensures
        chain_valid(Seq::<Ballot>::empty()),
{
}

/// On a valid chain, `block_check` accepts a ballot exactly when the chain with the ballot
/// appended is valid.
pub proof fn lemma_accepted_extension_valid(chain: Seq<Ballot>, b: Ballot)
    requires
        chain_valid(chain),
    ensures
        block_check(chain, b) is Ok <==> chain_valid(chain.push(b)),
{
    let ext = chain.push(b);
    if block_check(chain, b) is Ok {
        assert forall|k: int| 0 <= k < ext.len() implies #[trigger] ext[k].index == k as u32 by {
            if k < chain.len() {
                assert(ext[k] == chain[k]);
            }
        }
        assert forall|k: int| 0 < k < ext.len() implies {
            &&& #[trigger] ext[k].timestamp > ext[k - 1].timestamp
            &&& (ext[k].prev_block_hash@ == ext[k - 1].hash@ || ext[k].prev_block_hash@
                != zero_hash())
        } by {
            if k < chain.len() {
                assert(ext[k] == chain[k]);
                assert(ext[k - 1] == chain[k - 1]);
            } else {
                assert(ext[k] == b);
                assert(ext[k - 1] == chain.last());
                assert(check_new(chain, b.index, b.timestamp, b.prev_block_hash@) is Ok);
                assert(b.timestamp > chain.last().timestamp);
            }
        }
    }
    if chain_valid(ext) {
        assert(ext[chain.len() as int] == b);
        assert(ext[chain.len() as int].index == chain.len() as u32);
        if chain.len() > 0 {
            assert(ext[chain.len() - 1] == chain.last());
            assert(ext[chain.len() as int].timestamp > ext[chain.len() - 1].timestamp);
        } else {
            assert(ext[0] == b);
        }
    }
}

/// The number of ballots in `chain` cast for the candidate `id`.
pub open spec fn votes_for(chain: Seq<Ballot>, id: u32) -> nat
    decreases chain.len(),
{
    if chain.len() == 0 {
        0
    } else {
        votes_for(chain.drop_last(), id) + if chain.last().voted_candidate_id == id {
            1nat
        } else {
            0nat
        }
    }
}

/// Appending a ballot adds one vote for its candidate and none for any other.
pub proof fn lemma_votes_for_push(chain: Seq<Ballot>, b: Ballot, id: u32)
    ensures
        votes_for(chain.push(b), id) == votes_for(chain, id) + if b.voted_candidate_id == id {
            1nat
        } else {
            0nat
        },
{
    assert(chain.push(b).drop_last() =~= chain);
}

/// A prefix of a chain holds no more votes for a candidate than the whole chain.
pub proof fn lemma_votes_for_prefix(chain: Seq<Ballot>, i: int, id: u32)
    requires
        0 <= i <= chain.len(),
    ensures
        votes_for(chain.take(i), id) <= votes_for(chain, id),
    decreases chain.len(),
{
    if i < chain.len() {
        assert(chain.drop_last().take(i) =~= chain.take(i));
        lemma_votes_for_prefix(chain.drop_last(), i, id);
    } else {
        assert(chain.take(i) =~= chain);
    }
}

impl Ballotchain {
    /// The number of ballots cast for the candidate `id`, or `None` where it exceeds
    /// `u32::MAX`.
    pub fn count_votes(&self, id: u32) -> (r: Option<u32>)
        ensures
            r == if votes_for(self.ballots@, id) <= u32::MAX {
                Some(votes_for(self.ballots@, id) as u32)
            } else {
                None::<u32>
            },
    {
        let mut count: u32 = 0;
        let mut i: usize = 0;
        proof {
            assert(self.ballots@.take(0) =~= Seq::<Ballot>::empty());
        }
        while i < self.ballots.len()
            invariant
                i <= self.ballots@.len(),
                count as nat == votes_for(self.ballots@.take(i as int), id),
            decreases self.ballots@.len() - i,
        {
            proof {
                assert(self.ballots@.take(i + 1).drop_last() =~= self.ballots@.take(i as int));
            }
            if self.ballots[i].voted_candidate_id == id {
                if count == u32::MAX {
                    proof {
                        lemma_votes_for_prefix(self.ballots@, i + 1, id);
                    }
                    return None;
                }
                count = count + 1;
            }
            i = i + 1;
        }
        proof {
            assert(self.ballots@.take(i as int) =~= self.ballots@);
        }
        Some(count)
    }
}

/// Whether a ballot is cast for the candidate `id`.
pub open spec fn cast_for(id: u32) -> spec_fn(Ballot) -> bool {
    |b: Ballot| b.voted_candidate_id == id
}

/// The votes for a candidate are the ballots of the chain cast for it.
pub proof fn lemma_votes_for_counts_ballots(chain: Seq<Ballot>, id: u32)
    ensures
        votes_for(chain, id) == chain.filter(cast_for(id)).len(),
    decreases chain.len(),
{
    reveal_with_fuel(Seq::<Ballot>::filter, 1);
    if chain.len() > 0 {
        lemma_votes_for_counts_ballots(chain.drop_last(), id);
    }
}

} // verus!
