//! The loading of discovered pools: the actor accepts each pool once, lets
//! no more fetches run at a time than it has permits, and starts the pools
//! that wait in the order in which they were accepted. A pool whose fetch
//! failed is forgotten, so that a later discovery may have it fetched again.

use vstd::prelude::*;
use std::collections::VecDeque;
use crate::actors::history_loader_actor::ids;
use crate::actors::Actor;
use crate::messages::{Delivery, Message};
use crate::ordered_map::OrdMap;
use crate::sequences::lemma_push_members;
use crate::types::{PoolClass, PoolId};

verus! {

/// How far the loading of a dispatched pool has come.
#[derive(Debug, Clone, Copy, PartialEq, Eq, Structural)]
pub enum PoolStatus {
    /// The pool was accepted and waits for a permit.
    Waiting,
    /// The fetch of the pool holds a permit.
    Fetching,
    /// The pool was loaded.
    Loaded,
}

/// What the loading actor does after a delivery.
#[derive(Debug, Clone)]
pub enum LoaderAction {
    /// Start a fetch for each of these pools, then receive again. Each fetch
    /// holds a permit until `on_task_finished` is told how it ended.
    Start(Vec<(PoolId, PoolClass)>),
    /// Nothing; receive again.
    Continue,
    /// End.
    Halt,
}

/// The pools of a request that are accepted: those that were not dispatched
/// before, each once, in the order of the request.
pub open spec fn accepted(dispatched: Set<PoolId>, pools: Seq<(PoolId, PoolClass)>) -> Seq<
    (PoolId, PoolClass),
>
    decreases pools.len(),
{
    if pools.len() == 0 {
        Seq::empty()
    } else {
        let before = accepted(dispatched, pools.drop_last());
        if dispatched.contains(pools.last().0) || ids(before).contains(pools.last().0) {
            before
        } else {
            before.push(pools.last())
        }
    }
}

/// The statuses with each pool of the list set to `mark`.
pub open spec fn marked(
    status: Map<PoolId, PoolStatus>,
    pools: Seq<(PoolId, PoolClass)>,
    mark: PoolStatus,
) -> Map<PoolId, PoolStatus> {
    Map::new(
        |id: PoolId| status.contains_key(id) || ids(pools).contains(id),
        |id: PoolId|
            if ids(pools).contains(id) {
                mark
            } else {
                status[id]
            },
    )
}

/// The number of fetches that start when `free` permits meet `queued` pools.
pub open spec fn starting(free: nat, queued: nat) -> nat {
    if free < queued {
        free
    } else {
        queued
    }
}

/// A pool is accepted exactly if the request names it and it was not
/// dispatched before, and no pool is accepted twice.
pub proof fn lemma_accepted(dispatched: Set<PoolId>, pools: Seq<(PoolId, PoolClass)>)
    ensures
        forall|id: PoolId|
            #![trigger ids(accepted(dispatched, pools)).contains(id)]
            #![trigger ids(pools).contains(id)]
            ids(accepted(dispatched, pools)).contains(id) <==> ids(pools).contains(id)
                && !dispatched.contains(id),
        ids(accepted(dispatched, pools)).no_duplicates(),
    decreases pools.len(),
{
    let fresh = accepted(dispatched, pools);
    if pools.len() > 0 {
        let front = pools.drop_last();
        let before = accepted(dispatched, front);
        let last = pools.last();
        lemma_accepted(dispatched, front);
        assert(ids(pools) =~= ids(front).push(last.0));
        let skip = dispatched.contains(last.0) || ids(before).contains(last.0);
        if skip {
            assert(fresh == before);
        } else {
            assert(fresh == before.push(last));
            assert(ids(fresh) =~= ids(before).push(last.0));
        }
        assert forall|id: PoolId|
            #![trigger ids(fresh).contains(id)]
            #![trigger ids(pools).contains(id)]
            ids(fresh).contains(id) <==> ids(pools).contains(id) && !dispatched.contains(id) by {
            lemma_push_members(ids(front), last.0, id);
            assert(ids(pools).contains(id) <==> ids(front).contains(id) || last.0 == id);
            assert(ids(before).contains(id) <==> ids(front).contains(id) && !dispatched.contains(id));
            if !skip {
                lemma_push_members(ids(before), last.0, id);
            }
        }
        if !(dispatched.contains(last.0) || ids(before).contains(last.0)) {
            assert(ids(fresh) =~= ids(before).push(last.0));
            assert forall|i: int, j: int|
                0 <= i < ids(fresh).len() && 0 <= j < ids(fresh).len() && i != j implies ids(
                fresh,
            )[i] != ids(fresh)[j] by {
                if i == ids(before).len() {
                    assert(ids(before)[j] == ids(fresh)[j]);
                    assert(ids(before).contains(ids(before)[j]));
                } else if j == ids(before).len() {
                    assert(ids(before)[i] == ids(fresh)[i]);
                    assert(ids(before).contains(ids(before)[i]));
                } else {
                    assert(ids(before)[i] == ids(fresh)[i] && ids(before)[j] == ids(fresh)[j]);
                }
            }
        }
    } else {
        assert(ids(fresh) =~= Seq::<PoolId>::empty());
        assert(ids(pools) =~= Seq::<PoolId>::empty());
    }
}

/// A request whose pools were all dispatched before is accepted in no part:
/// the same pools, requested a second time, start no second fetch.
pub proof fn lemma_dispatched_pools_are_not_accepted(
    dispatched: Set<PoolId>,
    pools: Seq<(PoolId, PoolClass)>,
)
    requires
        forall|i: int| 0 <= i < pools.len() ==> dispatched.contains((#[trigger] pools[i]).0),
    ensures
        accepted(dispatched, pools) == Seq::<(PoolId, PoolClass)>::empty(),
    decreases pools.len(),
{
    if pools.len() > 0 {
        let front = pools.drop_last();
        assert forall|i: int| 0 <= i < front.len() implies dispatched.contains(
            (#[trigger] front[i]).0,
        ) by {
            assert(front[i] == pools[i]);
        }
        lemma_dispatched_pools_are_not_accepted(dispatched, front);
        assert(dispatched.contains(pools[pools.len() - 1].0));
    }
}

/// The same request, dispatched a second time, is accepted in no part:
/// whatever was started in between, every pool of the request is dispatched
/// after the first time, so that none of them is fetched twice.
pub proof fn lemma_second_dispatch_accepts_nothing(
    status: Map<PoolId, PoolStatus>,
    pools: Seq<(PoolId, PoolClass)>,
    started: Seq<(PoolId, PoolClass)>,
)
    ensures
        accepted(
            marked(
                marked(status, accepted(status.dom(), pools), PoolStatus::Waiting),
                started,
                PoolStatus::Fetching,
            ).dom(),
            pools,
        ) == Seq::<(PoolId, PoolClass)>::empty(),
{
    let fresh = accepted(status.dom(), pools);
    let after = marked(marked(status, fresh, PoolStatus::Waiting), started, PoolStatus::Fetching);
    lemma_accepted(status.dom(), pools);
    assert forall|i: int| 0 <= i < pools.len() implies after.dom().contains(
        (#[trigger] pools[i]).0,
    ) by {
        assert(ids(pools)[i] == pools[i].0);
        assert(ids(pools).contains(pools[i].0));
    }
    lemma_dispatched_pools_are_not_accepted(after.dom(), pools);
}

/// The loading actor.
#[derive(Debug)]
pub struct PoolLoaderActor {
    max_concurrent: usize,
    processed: OrdMap<PoolId, PoolStatus>,
    waiting: VecDeque<(PoolId, PoolClass)>,
    in_flight: usize,
}

impl Actor for PoolLoaderActor {
    fn name(&self) -> (name: &'static str)
        ensures
            name@ == "PoolLoaderActor"@,
    {
        "PoolLoaderActor"
    }
}

impl PoolLoaderActor {
    #[verifier::type_invariant]
    spec fn within_permits(self) -> bool {
        &&& self.in_flight <= self.max_concurrent
        &&& self.waiting@.len() > 0 ==> self.in_flight == self.max_concurrent
    }

    /// The number of permits: the most fetches that run at one time.
    pub closed spec fn max_concurrent(self) -> usize {
        self.max_concurrent
    }

    /// The dispatched pools, each with how far its loading has come. A pool
    /// whose fetch failed is no longer among them.
    pub closed spec fn status(self) -> Map<PoolId, PoolStatus> {
        self.processed@
    }

    /// The pools that are dispatched: waiting, being fetched, or loaded.
    pub open spec fn dispatched(self) -> Set<PoolId> {
        self.status().dom()
    }

    /// The accepted pools that wait for a permit, the longest waiting first.
    pub closed spec fn waiting(self) -> Seq<(PoolId, PoolClass)> {
        self.waiting@
    }

    /// The number of fetches that hold a permit.
    pub closed spec fn in_flight(self) -> usize {
        self.in_flight
    }

    /// An actor with `max_concurrent` permits that has dispatched no pool.
    pub fn new(max_concurrent: usize) -> (actor: Self)
        ensures
            actor.max_concurrent() == max_concurrent,
            actor.status() == Map::<PoolId, PoolStatus>::empty(),
            actor.waiting() == Seq::<(PoolId, PoolClass)>::empty(),
            actor.in_flight() == 0,
    {
        PoolLoaderActor {
            max_concurrent,
            processed: OrdMap::new(),
            waiting: VecDeque::new(),
            in_flight: 0,
        }
    }

    /// The number of fetches that hold a permit; never more than there are
    /// permits, and as many as there are while a pool waits.
    pub fn fetches_in_flight(&self) -> (count: usize)
        ensures
            count == self.in_flight(),
            count <= self.max_concurrent(),
            self.waiting().len() > 0 ==> count == self.max_concurrent(),
    {
        proof {
            use_type_invariant(self);
        }
        self.in_flight
    }

    /// The number of accepted pools that wait for a permit.
    pub fn pools_waiting(&self) -> (count: usize)
        ensures
            count == self.waiting().len(),
    {
        self.waiting.len()
    }

    /// How far the loading of a pool has come; nothing for a pool that is not
    /// dispatched.
    pub fn status_of(&self, pool_id: &PoolId) -> (status: Option<PoolStatus>)
        ensures
            status == self.status().get(*pool_id),
    {
        match self.processed.get(pool_id) {
            Some(status) => Some(*status),
            None => None,
        }
    }

    /// Accepts the pools of a request that are not dispatched, puts them
    /// behind those that wait, and starts as many of the waiting as there
    /// are free permits.
    pub fn dispatch(&mut self, pools: &Vec<(PoolId, PoolClass)>) -> (started: Vec<(PoolId, PoolClass)>)
        ensures
            final(self).max_concurrent() == old(self).max_concurrent(),
            ({
                let fresh = accepted(old(self).dispatched(), pools@);
                let queue = old(self).waiting() + fresh;
                let count = starting(
                    (old(self).max_concurrent() - old(self).in_flight()) as nat,
                    queue.len(),
                );
                &&& started@ == queue.take(count as int)
                &&& final(self).waiting() == queue.skip(count as int)
                &&& final(self).in_flight() == old(self).in_flight() + count
                &&& final(self).status() == marked(
                    marked(old(self).status(), fresh, PoolStatus::Waiting),
                    started@,
                    PoolStatus::Fetching,
                )
            }),
            final(self).in_flight() <= final(self).max_concurrent(),
    {
        proof {
            use_type_invariant(&*self);
        }
        let ghost known = self.processed@;
        let ghost waited = self.waiting@;
        let max = self.max_concurrent;
        let mut in_flight = self.in_flight;
        let mut processed: OrdMap<PoolId, PoolStatus> = OrdMap::new();
        std::mem::swap(&mut self.processed, &mut processed);
        let mut waiting: VecDeque<(PoolId, PoolClass)> = VecDeque::new();
        std::mem::swap(&mut self.waiting, &mut waiting);
        let ghost fresh: Seq<(PoolId, PoolClass)> = Seq::empty();
        let mut i: usize = 0;
        proof {
            assert(pools@.take(0) =~= Seq::<(PoolId, PoolClass)>::empty());
            assert(ids(fresh) =~= Seq::<PoolId>::empty());
            assert(processed@ =~= marked(known, fresh, PoolStatus::Waiting));
            assert(waiting@ =~= waited + fresh);
        }
        while i < pools.len()
            invariant
                i <= pools@.len(),
                fresh == accepted(known.dom(), pools@.take(i as int)),
                waiting@ == waited + fresh,
                processed@ == marked(known, fresh, PoolStatus::Waiting),
            decreases pools@.len() - i,
        {
            let pool = pools[i];
            proof {
                let next = pools@.take(i + 1);
                assert(next.drop_last() =~= pools@.take(i as int));
                assert(next.last() == pool);
            }
            if !processed.contains_key(&pool.0) {
                processed.insert(pool.0, PoolStatus::Waiting);
                waiting.push_back(pool);
                proof {
                    let longer = fresh.push(pool);
                    assert(ids(longer) =~= ids(fresh).push(pool.0));
                    assert forall|id: PoolId| ids(longer).contains(id) <==> ids(fresh).contains(id)
                        || id == pool.0 by {
                        lemma_push_members(ids(fresh), pool.0, id);
                    }
                    assert(processed@ =~= marked(known, longer, PoolStatus::Waiting));
                    fresh = longer;
                    assert(waiting@ =~= waited + fresh);
                }
            }
            i += 1;
        }
        proof {
            assert(pools@.take(pools@.len() as int) =~= pools@);
        }
        let ghost queue = waiting@;
        let ghost accepted_status = processed@;
        let ghost free = (max - in_flight) as nat;
        let mut started: Vec<(PoolId, PoolClass)> = Vec::new();
        proof {
            assert(ids(started@) =~= Seq::<PoolId>::empty());
            assert(processed@ =~= marked(accepted_status, started@, PoolStatus::Fetching));
        }
        while in_flight < max && waiting.len() > 0
            invariant
                in_flight <= max,
                started@.len() <= queue.len(),
                started@ == queue.take(started@.len() as int),
                waiting@ == queue.skip(started@.len() as int),
                in_flight == self.in_flight() + started@.len(),
                self.in_flight() == old(self).in_flight(),
                free == max - old(self).in_flight(),
                processed@ == marked(accepted_status, started@, PoolStatus::Fetching),
            decreases waiting@.len(),
        {
            let ghost count = started@.len() as int;
            let ghost before = started@;
            match waiting.pop_front() {
                Some(pool) => {
                    processed.insert(pool.0, PoolStatus::Fetching);
                    started.push(pool);
                    in_flight += 1;
                    proof {
                        assert(pool == queue[count]);
                        assert(started@ =~= queue.take(count + 1));
                        assert(waiting@ =~= queue.skip(count + 1));
                        assert(ids(started@) =~= ids(before).push(pool.0));
                        assert forall|id: PoolId| ids(started@).contains(id) <==> ids(
                            before,
                        ).contains(id) || id == pool.0 by {
                            lemma_push_members(ids(before), pool.0, id);
                        }
                        assert(processed@ =~= marked(
                            accepted_status,
                            started@,
                            PoolStatus::Fetching,
                        ));
                    }
                },
                None => {},
            }
        }
        self.processed = processed;
        self.in_flight = in_flight;
        self.waiting = waiting;
        started
    }

    /// Takes in what a receive on the bus yielded: a request to fetch pools
    /// is dispatched; a stop or a closed bus ends the actor; a lag and every
    /// other message change nothing.
    pub fn on_message(&mut self, delivery: &Delivery) -> (action: LoaderAction)
        ensures
            final(self).max_concurrent() == old(self).max_concurrent(),
            final(self).in_flight() <= final(self).max_concurrent(),
            match *delivery {
                Delivery::Message(Message::FetchPools(pools)) => {
                    let fresh = accepted(old(self).dispatched(), pools@);
                    let queue = old(self).waiting() + fresh;
                    let count = starting(
                        (old(self).max_concurrent() - old(self).in_flight()) as nat,
                        queue.len(),
                    );
                    &&& action matches LoaderAction::Start(started)
                    &&& started@ == queue.take(count as int)
                    &&& final(self).waiting() == queue.skip(count as int)
                    &&& final(self).in_flight() == old(self).in_flight() + count
                    &&& final(self).status() == marked(
                        marked(old(self).status(), fresh, PoolStatus::Waiting),
                        started@,
                        PoolStatus::Fetching,
                    )
                },
                Delivery::Message(Message::Stop) | Delivery::Closed => {
                    &&& action is Halt
                    &&& final(self).waiting() == old(self).waiting()
                    &&& final(self).in_flight() == old(self).in_flight()
                    &&& final(self).status() == old(self).status()
                },
                _ => {
                    &&& action is Continue
                    &&& final(self).waiting() == old(self).waiting()
                    &&& final(self).in_flight() == old(self).in_flight()
                    &&& final(self).status() == old(self).status()
                },
            },
    {
        proof {
            use_type_invariant(&*self);
        }
        match delivery {
            Delivery::Message(Message::FetchPools(pools)) => LoaderAction::Start(
                self.dispatch(pools),
            ),
            Delivery::Message(Message::Stop) => LoaderAction::Halt,
            Delivery::Closed => LoaderAction::Halt,
            _ => LoaderAction::Continue,
        }
    }

    /// Takes in the end of the fetch of a pool. A pool that was loaded stays
    /// dispatched; a pool whose fetch failed is forgotten and may be
    /// dispatched again. The permit goes to the pool that waited longest,
    /// whose fetch is to be started; where none waits the permit is free
    /// again. Where the pool was not being fetched nothing changes.
    pub fn on_task_finished(&mut self, pool_id: PoolId, loaded: bool) -> (start: Option<
        (PoolId, PoolClass),
    >)
        ensures
            final(self).max_concurrent() == old(self).max_concurrent(),
            final(self).in_flight() <= final(self).max_concurrent(),
            ({
                let settled = if loaded {
                    old(self).status().insert(pool_id, PoolStatus::Loaded)
                } else {
                    old(self).status().remove(pool_id)
                };
                if old(self).status().get(pool_id) != Some(PoolStatus::Fetching) || old(
                    self,
                ).in_flight() == 0 {
                    &&& start is None
                    &&& final(self).status() == old(self).status()
                    &&& final(self).in_flight() == old(self).in_flight()
                    &&& final(self).waiting() == old(self).waiting()
                } else if old(self).waiting().len() > 0 {
                    &&& start == Some(old(self).waiting()[0])
                    &&& final(self).status() == settled.insert(
                        old(self).waiting()[0].0,
                        PoolStatus::Fetching,
                    )
                    &&& final(self).waiting() == old(self).waiting().skip(1)
                    &&& final(self).in_flight() == old(self).in_flight()
                } else {
                    &&& start is None
                    &&& final(self).status() == settled
                    &&& final(self).waiting() == old(self).waiting()
                    &&& final(self).in_flight() == old(self).in_flight() - 1
                }
            }),
    {
        proof {
            use_type_invariant(&*self);
        }
        let fetching = match self.processed.get(&pool_id) {
            Some(PoolStatus::Fetching) => true,
            _ => false,
        };
        if !fetching || self.in_flight == 0 {
            return None;
        }
        let in_flight = self.in_flight;
        let mut processed: OrdMap<PoolId, PoolStatus> = OrdMap::new();
        std::mem::swap(&mut self.processed, &mut processed);
        let mut waiting: VecDeque<(PoolId, PoolClass)> = VecDeque::new();
        std::mem::swap(&mut self.waiting, &mut waiting);
        if loaded {
            processed.insert(pool_id, PoolStatus::Loaded);
        } else {
            processed.remove(&pool_id);
        }
        let start = waiting.pop_front();
        match start {
            Some(pool) => {
                processed.insert(pool.0, PoolStatus::Fetching);
                proof {
                    assert(waiting@ =~= old(self).waiting().skip(1));
                }
                self.processed = processed;
                self.waiting = waiting;
            },
            None => {
                self.processed = processed;
                self.in_flight = in_flight - 1;
            },
        }
        start
    }
}

} // verus!
