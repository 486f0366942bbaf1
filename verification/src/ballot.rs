//! A ballot: one block of the chain, mined by searching for a nonce.

use vstd::prelude::*;

use crate::bytes::{
    difficulty_bytes_as_u128, difficulty_value, le_bytes, le_value, lemma_le_bytes_len,
    lemma_le_value_of_le_bytes, lemma_pow256_widths, u128_bytes, u32_bytes, u64_bytes, zero_hash,
};
use crate::hash::{sha256_digest, sha256_of};
use crate::text::{decimal, decimal_string, hex_lower, hex_string};

verus! {

/// One vote, sealed into the chain as a block.
#[derive(Clone)]
pub struct Ballot {
    /// Position of the ballot in the chain.
    pub index: u32,
    /// Creation time, in milliseconds.
    pub timestamp: u128,
    /// Hash of the ballot, found by mining.
    pub hash: Vec<u8>,
    /// Hash of the ballot before it in the chain.
    pub prev_block_hash: Vec<u8>,
    /// Number that was tried to make the hash meet the difficulty.
    pub nonce: u64,
    /// Candidate the vote is for.
    pub voted_candidate_id: u32,
    /// Voter that cast the ballot.
    pub voter_id: u32,
    /// A hash is accepted when the number in its bytes 16 to 31 is below this.
    pub difficulty: u128,
}

/// The bytes that a ballot's hash is computed over, given its fields: index, timestamp,
/// previous hash, nonce, candidate and difficulty, the integers little-endian.
pub open spec fn hash_input(
    index: u32,
    timestamp: u128,
    prev: Seq<u8>,
    nonce: u64,
    candidate: u32,
    difficulty: u128,
) -> Seq<u8> {
    le_bytes(index as nat, 4) + le_bytes(timestamp as nat, 16) + prev + le_bytes(nonce as nat, 8)
        + le_bytes(candidate as nat, 4) + le_bytes(difficulty as nat, 16)
}

/// The bytes that the hash of `b` is computed over. The voter and the hash itself are not
/// part of them.
pub open spec fn ballot_bytes(b: Ballot) -> Seq<u8> {
    hash_input(b.index, b.timestamp, b.prev_block_hash@, b.nonce, b.voted_candidate_id, b.difficulty)
}

/// The hash of a ballot with the given fields.
pub open spec fn digest_of(
    index: u32,
    timestamp: u128,
    prev: Seq<u8>,
    nonce: u64,
    candidate: u32,
    difficulty: u128,
) -> Seq<u8> {
    sha256_of(hash_input(index, timestamp, prev, nonce, candidate, difficulty))
}

/// Whether `hash` meets `difficulty`: the number in its bytes 16 to 31 is below `difficulty`.
pub open spec fn meets_difficulty(hash: Seq<u8>, difficulty: u128) -> bool {
    difficulty > difficulty_value(hash)
}

/// What mining leaves in `r`, from a ballot with the given fields and the candidate `id`: the
/// first nonce below `u64::MAX` whose hash meets the difficulty, with that hash and `id`
/// recorded; or, where none does, the last nonce tried, `u64::MAX - 1`, with hash and
/// candidate as they were.
pub open spec fn mined_from(
    r: Ballot,
    index: u32,
    timestamp: u128,
    prev: Seq<u8>,
    candidate: u32,
    hash: Seq<u8>,
    voter: u32,
    difficulty: u128,
    id: u32,
) -> bool {
    &&& r.index == index
    &&& r.timestamp == timestamp
    &&& r.prev_block_hash@ == prev
    &&& r.voter_id == voter
    &&& r.difficulty == difficulty
    &&& r.nonce < u64::MAX
    &&& forall|m: u64|
        m < r.nonce ==> !meets_difficulty(
            #[trigger] digest_of(index, timestamp, prev, m, candidate, difficulty),
            difficulty,
        )
    &&& if meets_difficulty(
        digest_of(index, timestamp, prev, r.nonce, candidate, difficulty),
        difficulty,
    ) {
        &&& r.hash@ == digest_of(index, timestamp, prev, r.nonce, candidate, difficulty)
        &&& r.hash@.len() == 32
        &&& r.voted_candidate_id == id
    } else {
        &&& r.nonce == u64::MAX - 1
        &&& r.hash@ == hash
        &&& r.voted_candidate_id == candidate
    }
}

/// What `vote` leaves in `r`, from the ballot `b` and the candidate `id`.
pub open spec fn mined(b: Ballot, r: Ballot, id: u32) -> bool {
    mined_from(
        r,
        b.index,
        b.timestamp,
        b.prev_block_hash@,
        b.voted_candidate_id,
        b.hash@,
        b.voter_id,
        b.difficulty,
        id,
    )
}

impl Ballot {
    /// A ballot not mined yet: nonce 0 and a hash of 32 zero bytes.
    pub fn new(
        index: u32,
        timestamp: u128,
        prev_block_hash: Vec<u8>,
        voted_candidate_id: u32,
        voter_id: u32,
        difficulty: u128,
    ) -> (b: Self)
        ensures
            b.index == index,
            b.timestamp == timestamp,
            b.hash@ == zero_hash(),
            b.prev_block_hash == prev_block_hash,
            b.nonce == 0,
            b.voted_candidate_id == voted_candidate_id,
            b.voter_id == voter_id,
            b.difficulty == difficulty,
    {
        let hash: Vec<u8> = vec![0u8; 32];
        assert(hash@ =~= zero_hash());
        Ballot {
            index,
            timestamp,
            hash,
            prev_block_hash,
            nonce: 0,
            voted_candidate_id,
            voter_id,
            difficulty,
        }
    }

    /// The bytes that the hash of this ballot is computed over.
    pub fn bytes(&self) -> (r: Vec<u8>)
        ensures
            r@ == ballot_bytes(*self),
            r@.len() == 48 + self.prev_block_hash@.len() as int,
            le_value(r@.subrange(0, 4)) == self.index,
            le_value(r@.subrange(4, 20)) == self.timestamp,
            r@.subrange(20, 20 + self.prev_block_hash@.len() as int) == self.prev_block_hash@,
            le_value(r@.subrange(20 + self.prev_block_hash@.len() as int, 28 + self.prev_block_hash@.len() as int))
                == self.nonce,
            le_value(r@.subrange(28 + self.prev_block_hash@.len() as int, 32 + self.prev_block_hash@.len() as int))
                == self.voted_candidate_id,
            le_value(r@.subrange(32 + self.prev_block_hash@.len() as int, 48 + self.prev_block_hash@.len() as int))
                == self.difficulty,
    {
        proof {
            lemma_ballot_bytes_fields(*self);
        }
        let mut bytes: Vec<u8> = Vec::new();
        let mut part = u32_bytes(&self.index);
        bytes.append(&mut part);
        let mut part = u128_bytes(&self.timestamp);
        bytes.append(&mut part);
        bytes.extend_from_slice(self.prev_block_hash.as_slice());
        let mut part = u64_bytes(&self.nonce);
        bytes.append(&mut part);
        let mut part = u32_bytes(&self.voted_candidate_id);
        bytes.append(&mut part);
        let mut part = u128_bytes(&self.difficulty);
        bytes.append(&mut part);
        assert(bytes@ =~= ballot_bytes(*self));
        bytes
    }

    /// The SHA-256 digest of the ballot's bytes.
    pub fn hash(&self) -> (r: Vec<u8>)
        ensures
            r@ == sha256_of(ballot_bytes(*self)),
            r@.len() == 32,
    {
        let bytes = self.bytes();
        sha256_digest(bytes.as_slice())
    }

    /// Mines the ballot: tries the nonces from 0 upward until the hash meets the difficulty,
    /// then records that hash and the candidate `voted_candidate_id`.
    pub fn vote(&mut self, voted_candidate_id: u32)
        ensures
            mined(*old(self), *final(self), voted_candidate_id),
    {
        let ghost start = *self;
        let mut nonce_attempt: u64 = 0;
        while nonce_attempt < u64::MAX
            invariant
                *old(self) == start,
                self.index == start.index,
                self.timestamp == start.timestamp,
                self.prev_block_hash@ == start.prev_block_hash@,
                self.voter_id == start.voter_id,
                self.difficulty == start.difficulty,
                self.hash@ == start.hash@,
                self.voted_candidate_id == start.voted_candidate_id,
                nonce_attempt == 0 ==> self.nonce == start.nonce,
                nonce_attempt > 0 ==> self.nonce == nonce_attempt - 1,
                forall|m: u64|
                    m < nonce_attempt ==> !meets_difficulty(
                        #[trigger] digest_of(
                            start.index,
                            start.timestamp,
                            start.prev_block_hash@,
                            m,
                            start.voted_candidate_id,
                            start.difficulty,
                        ),
                        start.difficulty,
                    ),
            decreases u64::MAX - nonce_attempt,
        {
            self.nonce = nonce_attempt;
            let hash = self.hash();
            if check_difficulty(&hash, self.difficulty) {
                self.hash = hash;
                self.voted_candidate_id = voted_candidate_id;
                return;
            }
            nonce_attempt = nonce_attempt + 1;
        }
    }

    /// The line a ballot is shown as: its index, hash in hexadecimal, timestamp, candidate,
    /// voter and nonce.
    pub fn describe(&self) -> (r: String)
        ensures
            r@ == "Vote Ballot["@ + decimal(self.index as nat) + "]: "@ + hex_lower(self.hash@)
                + " created at: "@ + decimal(self.timestamp as nat) + " voted for: "@ + decimal(
                self.voted_candidate_id as nat,
            ) + " voted by: "@ + decimal(self.voter_id as nat) + " nonce: "@ + decimal(
                self.nonce as nat,
            ),
    {
        let mut s = String::from_str("Vote Ballot[");
        s.append(decimal_string(self.index as u128).as_str());
        s.append("]: ");
        s.append(hex_string(self.hash.as_slice()).as_str());
        s.append(" created at: ");
        s.append(decimal_string(self.timestamp).as_str());
        s.append(" voted for: ");
        s.append(decimal_string(self.voted_candidate_id as u128).as_str());
        s.append(" voted by: ");
        s.append(decimal_string(self.voter_id as u128).as_str());
        s.append(" nonce: ");
        s.append(decimal_string(self.nonce as u128).as_str());
        s
    }

    /// Does nothing.
    pub fn candidate_check(candidate_id: u32) {
    }

    /// Does nothing.
    pub fn voted_check(voter_id: u32) {
    }
}

/// Whether `hash` meets `difficulty`: the number in bytes 16 to 31 of the hash (byte 31 the most
/// significant) is below `difficulty`.
pub fn check_difficulty(hash: &Vec<u8>, difficulty: u128) -> (r: bool)
    requires
        hash@.len() >= 32,
    ensures
        r == meets_difficulty(hash@, difficulty),
{
    difficulty > difficulty_bytes_as_u128(hash)
}

/// A ballot that mining has left with a nonce below `u64::MAX - 1`, or with a candidate or hash
/// it did not hold before, carries a hash that meets its difficulty.
pub proof fn lemma_mined_hash_meets_difficulty(b: Ballot, r: Ballot, id: u32)
    requires
        mined(b, r, id),
        r.nonce != u64::MAX - 1 || r.hash@ != b.hash@ || r.voted_candidate_id
            != b.voted_candidate_id,
    ensures
        meets_difficulty(r.hash@, r.difficulty),
{
}

/// Where mining records the candidate the ballot already held, and succeeds, the stored hash
/// is the hash of the mined ballot's own bytes.
pub proof fn lemma_mined_hash_is_own_hash(b: Ballot, r: Ballot)
    requires
        mined(b, r, b.voted_candidate_id),
        meets_difficulty(
            digest_of(
                b.index,
                b.timestamp,
                b.prev_block_hash@,
                r.nonce,
                b.voted_candidate_id,
                b.difficulty,
            ),
            b.difficulty,
        ),
    ensures
        r.hash@ == sha256_of(ballot_bytes(r)),
{
}

/// The bytes a ballot is hashed over hold every hashed field at a fixed place, whatever the
/// ballot: the index in bytes 0 to 3, the timestamp in 4 to 19, the previous hash (of length
/// `p`) from 20 on, then the nonce (8 bytes), the candidate (4) and the difficulty (16), each
/// number little-endian; nothing else. So each field can be read back from them.
pub proof fn lemma_ballot_bytes_fields(b: Ballot)
    ensures
        ballot_bytes(b).len() == 48 + b.prev_block_hash@.len() as int,
        le_value(ballot_bytes(b).subrange(0, 4)) == b.index,
        le_value(ballot_bytes(b).subrange(4, 20)) == b.timestamp,
        ballot_bytes(b).subrange(20, 20 + b.prev_block_hash@.len() as int) == b.prev_block_hash@,
        le_value(ballot_bytes(b).subrange(20 + b.prev_block_hash@.len() as int, 28 + b.prev_block_hash@.len() as int))
            == b.nonce,
        le_value(ballot_bytes(b).subrange(28 + b.prev_block_hash@.len() as int, 32 + b.prev_block_hash@.len() as int))
            == b.voted_candidate_id,
        le_value(ballot_bytes(b).subrange(32 + b.prev_block_hash@.len() as int, 48 + b.prev_block_hash@.len() as int))
            == b.difficulty,
{
    let p = b.prev_block_hash@.len() as int;
    let s = ballot_bytes(b);
    let e0 = le_bytes(b.index as nat, 4);
    let e1 = le_bytes(b.timestamp as nat, 16);
    let e2 = le_bytes(b.nonce as nat, 8);
    let e3 = le_bytes(b.voted_candidate_id as nat, 4);
    let e4 = le_bytes(b.difficulty as nat, 16);
    lemma_le_bytes_len(b.index as nat, 4);
    lemma_le_bytes_len(b.timestamp as nat, 16);
    lemma_le_bytes_len(b.nonce as nat, 8);
    lemma_le_bytes_len(b.voted_candidate_id as nat, 4);
    lemma_le_bytes_len(b.difficulty as nat, 16);
    lemma_pow256_widths();
    lemma_le_value_of_le_bytes(b.index as nat, 4);
    lemma_le_value_of_le_bytes(b.timestamp as nat, 16);
    lemma_le_value_of_le_bytes(b.nonce as nat, 8);
    lemma_le_value_of_le_bytes(b.voted_candidate_id as nat, 4);
    lemma_le_value_of_le_bytes(b.difficulty as nat, 16);
    assert(s == e0 + e1 + b.prev_block_hash@ + e2 + e3 + e4);
    assert(s.subrange(0, 4) =~= e0);
    assert(s.subrange(4, 20) =~= e1);
    assert(s.subrange(20, 20 + p) =~= b.prev_block_hash@);
    assert(s.subrange(20 + p, 28 + p) =~= e2);
    assert(s.subrange(28 + p, 32 + p) =~= e3);
    assert(s.subrange(32 + p, 48 + p) =~= e4);
}

} // verus!
