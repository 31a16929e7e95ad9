//! Whether the bot reports itself as serving.
use vstd::prelude::*;

verus! {

/// The stage of a gateway shard's connection.
#[derive(Clone, Copy, Debug, PartialEq, Eq, Structural)]
pub enum ConnectionStage {
    Connected,
    Connecting,
    Disconnected,
    Handshake,
    Identifying,
    Resuming,
}

/// No shard is disconnected.
pub open spec fn shards_connected(stages: Seq<ConnectionStage>) -> bool {
    forall|i: int| 0 <= i < stages.len() ==> stages[i] != ConnectionStage::Disconnected
}

/// Whether no shard is disconnected.
pub fn shards_healthy(stages: &Vec<ConnectionStage>) -> (r: bool)
    ensures
        r == shards_connected(stages@),
{
    let mut i: usize = 0;
    while i < stages.len()
        invariant
            i <= stages@.len(),
            forall|j: int| 0 <= j < i ==> stages@[j] != ConnectionStage::Disconnected,
        decreases stages@.len() - i,
    {
        if stages[i] == ConnectionStage::Disconnected {
            return false;
        }
        i += 1;
    }
    true
}

/// The bot serves while no shard is disconnected and the database answers.
pub fn is_serving(stages: &Vec<ConnectionStage>, database_healthy: bool) -> (r: bool)
    ensures
        r == (shards_connected(stages@) && database_healthy),
{
    shards_healthy(stages) && database_healthy
}

} // verus!
