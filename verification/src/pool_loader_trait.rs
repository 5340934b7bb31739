//! What every pool loader can do without the ledger: tell from an event log
//! whether a pool of its class emitted it.

use vstd::prelude::*;
use crate::primitives::B256;
use crate::types::{Log, PoolClass, PoolId};

verus! {

/// A recogniser of the pools of one class.
pub trait PoolLoader {
    /// The pool and class that a log gives away, if the log is an event of
    /// this loader's class.
    spec fn recognised(&self, log: &Log) -> Option<(PoolId, PoolClass)>;

    /// The pool and class that `log` gives away, if it is an event of this
    /// loader's class.
    fn identify_pool_from_log(&self, log: &Log) -> (found: Option<(PoolId, PoolClass)>)
        ensures
            found == self.recognised(log),
    ;
}

/// Whether `topic` is one of the four event hashes.
pub open spec fn is_one_of(topic: B256, hashes: Seq<B256>) -> bool {
    topic == hashes[0] || topic == hashes[1] || topic == hashes[2] || topic == hashes[3]
}

/// What a log gives away to a recogniser that knows four event hashes: the
/// emitting contract as a pool of `class` where the first topic is one of the
/// hashes, and nothing where the log has no topic or another first topic.
pub open spec fn classified(log: &Log, hashes: Seq<B256>, class: PoolClass) -> Option<
    (PoolId, PoolClass),
> {
    if log.topics@.len() > 0 && is_one_of(log.topics@[0], hashes) {
        Some((PoolId(log.address), class))
    } else {
        None
    }
}

/// Classifies a log by its first topic against the four event hashes of a
/// class.
pub fn classify_log(log: &Log, hashes: &[B256; 4], class: PoolClass) -> (found: Option<
    (PoolId, PoolClass),
>)
    ensures
        found == classified(log, hashes@, class),
{
    if log.topics.len() == 0 {
        return None;
    }
    let topic = log.topics[0];
    if topic.same(&hashes[0]) || topic.same(&hashes[1]) || topic.same(&hashes[2]) || topic.same(
        &hashes[3],
    ) {
        Some((PoolId(log.address), class))
    } else {
        None
    }
}

} // verus!
