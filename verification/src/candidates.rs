//! The list of candidates.

use vstd::prelude::*;

use crate::candidate::Candidate;

verus! {

/// The candidates, in the order they were added. Ids need not be distinct.
pub struct Candidates {
    pub candidates: Vec<Candidate>,
}

/// Whether some candidate in `cs` has the id `id`.
pub open spec fn has_id(cs: Seq<Candidate>, id: u32) -> bool {
    exists|k: int| 0 <= k < cs.len() && #[trigger] cs[k].candidate_id == id
}

/// Whether `idx` lists, in increasing order, exactly the positions in `cs` of the candidates
/// with the id `id`.
pub open spec fn positions_of(cs: Seq<Candidate>, id: u32, idx: Seq<usize>) -> bool {
    &&& forall|j: int| 0 <= j < idx.len() ==> #[trigger] idx[j] < cs.len()
    &&& forall|j: int| 0 <= j < idx.len() ==> cs[#[trigger] idx[j] as int].candidate_id == id
    &&& forall|i: int, j: int| 0 <= i < j < idx.len() ==> idx[i] < idx[j]
    &&& forall|k: int|
        0 <= k < cs.len() && #[trigger] cs[k].candidate_id == id ==> idx.contains(k as usize)
}

/// Whether some candidate with the id `id` has a vote count that cannot grow.
pub open spec fn count_full(cs: Seq<Candidate>, id: u32) -> bool {
    exists|k: int|
        0 <= k < cs.len() && #[trigger] cs[k].candidate_id == id && cs[k].vote_count == u32::MAX
}

/// `after` is `before` with one more vote for every candidate with the id `id`.
pub open spec fn one_more_vote(before: Seq<Candidate>, after: Seq<Candidate>, id: u32) -> bool {
    &&& after.len() == before.len()
    &&& forall|k: int|
        0 <= k < before.len() ==> {
            &&& (#[trigger] after[k]).name@ == before[k].name@
            &&& after[k].candidate_id == before[k].candidate_id
            &&& after[k].vote_count == if before[k].candidate_id == id {
                before[k].vote_count + 1
            } else {
                before[k].vote_count as int
            }
        }
}

impl Candidates {
    /// An empty list.
    pub fn new() -> (r: Self)
        ensures
            r.candidates@ == Seq::<Candidate>::empty(),
    {
        Candidates { candidates: Vec::new() }
    }

    /// Appends `candidate` to the list.
    pub fn add_candidate(&mut self, candidate: Candidate)
        ensures
            final(self).candidates@ == old(self).candidates@.push(candidate),
    {
        self.candidates.push(candidate);
    }

    /// Whether some candidate has the id `id`.
    pub fn contains_id(&self, id: u32) -> (r: bool)
        ensures
            r == has_id(self.candidates@, id),
    {
        let mut i: usize = 0;
        while i < self.candidates.len()
            invariant
                i <= self.candidates@.len(),
                forall|k: int| 0 <= k < i ==> self.candidates@[k].candidate_id != id,
            decreases self.candidates@.len() - i,
        {
            if self.candidates[i].candidate_id == id {
                return true;
            }
            i = i + 1;
        }
        false
    }

    /// The positions of the candidates with the id `id`, in increasing order.
    pub fn positions(&self, id: u32) -> (r: Vec<usize>)
        ensures
            positions_of(self.candidates@, id, r@),
    {
        let mut r: Vec<usize> = Vec::new();
        let mut i: usize = 0;
        while i < self.candidates.len()
            invariant
                i <= self.candidates@.len(),
                forall|j: int| 0 <= j < r@.len() ==> #[trigger] r@[j] < i,
                forall|j: int|
                    0 <= j < r@.len() ==> self.candidates@[#[trigger] r@[j] as int].candidate_id
                        == id,
                forall|a: int, b: int| 0 <= a < b < r@.len() ==> r@[a] < r@[b],
                forall|k: int|
                    0 <= k < i && #[trigger] self.candidates@[k].candidate_id == id
                        ==> r@.contains(k as usize),
            decreases self.candidates@.len() - i,
        {
            let ghost old_r = r@;
            if self.candidates[i].candidate_id == id {
                r.push(i);
            }
            assert forall|k: int|
                0 <= k < i + 1 && #[trigger] self.candidates@[k].candidate_id == id implies r@.contains(
                k as usize,
            ) by {
                if k < i {
                    let j = choose|j: int| 0 <= j < old_r.len() && old_r[j] == k as usize;
                    assert(r@[j] == old_r[j]);
                } else {
                    assert(r@[r@.len() - 1] == i);
                }
            }
            i = i + 1;
        }
        r
    }

    /// Whether every candidate with the id `id` can take one more vote.
    pub fn can_count(&self, id: u32) -> (r: bool)
        ensures
            r == !count_full(self.candidates@, id),
    {
        let mut i: usize = 0;
        while i < self.candidates.len()
            invariant
                i <= self.candidates@.len(),
                forall|k: int|
                    0 <= k < i && #[trigger] self.candidates@[k].candidate_id == id
                        ==> self.candidates@[k].vote_count < u32::MAX,
            decreases self.candidates@.len() - i,
        {
            if self.candidates[i].candidate_id == id && self.candidates[i].vote_count == u32::MAX {
                return false;
            }
            i = i + 1;
        }
        true
    }

    /// Counts one more vote for every candidate with the id `id`; returns false, changing
    /// nothing, where one of their counts is already `u32::MAX`.
    pub fn record_vote(&mut self, id: u32) -> (r: bool)
        ensures
            r == !count_full(old(self).candidates@, id),
            r ==> one_more_vote(old(self).candidates@, final(self).candidates@, id),
            !r ==> final(self).candidates@ == old(self).candidates@,
    {
        if !self.can_count(id) {
            return false;
        }
        let ghost before = self.candidates@;
        let mut i: usize = 0;
        while i < self.candidates.len()
            invariant
                i <= self.candidates@.len(),
                self.candidates@.len() == before.len(),
                !count_full(before, id),
                forall|k: int|
                    0 <= k < before.len() ==> {
                        &&& (#[trigger] self.candidates@[k]).name@ == before[k].name@
                        &&& self.candidates@[k].candidate_id == before[k].candidate_id
                        &&& self.candidates@[k].vote_count == if k < i
                            && before[k].candidate_id == id {
                            before[k].vote_count + 1
                        } else {
                            before[k].vote_count as int
                        }
                    },
            decreases self.candidates@.len() - i,
        {
            if self.candidates[i].candidate_id == id {
                assert(before[i as int].candidate_id == id);
                let count = self.candidates[i].vote_count + 1;
                self.candidates[i].vote_count = count;
            }
            i = i + 1;
        }
        true
    }
}

} // verus!
