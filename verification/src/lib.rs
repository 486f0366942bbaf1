//! A chain of ballots: votes sealed into blocks by proof of work over SHA-256, the rules a new
//! ballot must meet to join the chain, the candidates the votes are counted for, and the
//! decisions of a node that takes commands from its console and ballots from its peers.

pub mod ballot;
pub mod ballotchain;
pub mod bytes;
pub mod candidate;
pub mod candidates;
pub mod command;
pub mod hash;
pub mod node;
pub mod text;
