//! An in-memory key-value server speaking a length-prefixed wire protocol,
//! with master/replica replication: the codec, the store with millisecond
//! deadlines, the command dispatcher, and the replication state, each with
//! its contract.
use vstd::prelude::*;

pub mod codec;
pub mod parser;
pub mod table;
pub mod memory;
pub mod options;
pub mod replication;
pub mod replica;
pub mod commands;

verus! {

/// A command as handed to a replica's delivery channel: the raw bytes of a write.
pub struct ReplicaCommand {
    pub message: Vec<u8>,
}

impl ReplicaCommand {
    pub fn new(message: Vec<u8>) -> (r: Self)
        ensures
            r.message@ == message@,
    {
        ReplicaCommand { message }
    }
}

} // verus!
