//! A candidate of the election.

use vstd::prelude::*;

use crate::text::{decimal, decimal_string};

verus! {

/// A candidate, with the number of votes counted for it.
pub struct Candidate {
    pub name: String,
    pub candidate_id: u32,
    pub vote_count: u32,
}

impl Candidate {
    /// A candidate with the given fields.
    pub fn new(name: String, candidate_id: u32, vote_count: u32) -> (c: Self)
        ensures
            c.name@ == name@,
            c.candidate_id == candidate_id,
            c.vote_count == vote_count,
    {
        Candidate { name, candidate_id, vote_count }
    }

    /// The line a candidate is shown as: its name, id and number of votes.
    pub fn describe(&self) -> (r: String)
        ensures
            r@ == "Adayın ismi "@ + self.name@ + ", idsi "@ + decimal(self.candidate_id as nat)
                + " ve sahip olduğu oy sayısı "@ + decimal(self.vote_count as nat),
    {
        let mut s = String::from_str("Adayın ismi ");
        s.append(self.name.as_str());
        s.append(", idsi ");
        s.append(decimal_string(self.candidate_id as u128).as_str());
        s.append(" ve sahip olduğu oy sayısı ");
        s.append(decimal_string(self.vote_count as u128).as_str());
        s
    }
}

} // verus!
