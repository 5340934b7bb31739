//! The loaders that a deployment has switched on, one per class.

use vstd::prelude::*;
use crate::pool_loader_trait::PoolLoader;
use crate::types::{Log, PoolClass, PoolId};
use crate::uniswap_v2_loader::UniswapV2Loader;
use crate::uniswap_v3_loader::UniswapV3Loader;

verus! {

/// A loader of one of the classes that the library implements.
pub enum Loader {
    UniswapV2(UniswapV2Loader),
    UniswapV3(UniswapV3Loader),
}

impl PoolLoader for Loader {
    open spec fn recognised(&self, log: &Log) -> Option<(PoolId, PoolClass)> {
        match *self {
            Loader::UniswapV2(loader) => loader.recognised(log),
            Loader::UniswapV3(loader) => loader.recognised(log),
        }
    }

    fn identify_pool_from_log(&self, log: &Log) -> (found: Option<(PoolId, PoolClass)>) {
        match self {
            Loader::UniswapV2(loader) => loader.identify_pool_from_log(log),
            Loader::UniswapV3(loader) => loader.identify_pool_from_log(log),
        }
    }
}

/// What the first of the loaders that recognises the log makes of it.
pub open spec fn first_recognised(loaders: Seq<(PoolClass, Loader)>, log: &Log) -> Option<
    (PoolId, PoolClass),
>
    decreases loaders.len(),
{
    if loaders.len() == 0 {
        None
    } else {
        match loaders[0].1.recognised(log) {
            Some(found) => Some(found),
            None => first_recognised(loaders.subrange(1, loaders.len() as int), log),
        }
    }
}

/// No class stands twice among the registered loaders.
pub open spec fn classes_distinct(loaders: Seq<(PoolClass, Loader)>) -> bool {
    forall|i: int, j: int|
        0 <= i < j < loaders.len() ==> (#[trigger] loaders[i]).0 != (#[trigger] loaders[j]).0
}

/// The registered loaders: at most one per class, asked in the order in which
/// their classes were first registered.
pub struct PoolLoaders {
    loaders: Vec<(PoolClass, Loader)>,
}

impl Default for PoolLoaders {
    fn default() -> (registry: Self)
        ensures
            registry.entries() == Seq::<(PoolClass, Loader)>::empty(),
    {
        PoolLoaders::new()
    }
}

impl PoolLoaders {
    #[verifier::type_invariant]
    spec fn one_loader_per_class(self) -> bool {
        classes_distinct(self.loaders@)
    }

    /// The registered loaders with their classes, in the order in which they
    /// are asked.
    pub closed spec fn entries(self) -> Seq<(PoolClass, Loader)> {
        self.loaders@
    }

    /// The registry without a loader.
    pub fn new() -> (registry: Self)
        ensures
            registry.entries() == Seq::<(PoolClass, Loader)>::empty(),
    {
        PoolLoaders { loaders: Vec::new() }
    }

    /// The position of the loader registered for `pool_class`, if there is
    /// one.
    fn position(&self, pool_class: PoolClass) -> (at: Option<usize>)
        ensures
            match at {
                Some(i) => i < self.entries().len() && self.entries()[i as int].0 == pool_class,
                None => forall|j: int|
                    0 <= j < self.entries().len() ==> (#[trigger] self.entries()[j]).0 != pool_class,
            },
    {
        let mut i: usize = 0;
        while i < self.loaders.len()
            invariant
                i <= self.loaders@.len(),
                forall|j: int| 0 <= j < i ==> (#[trigger] self.loaders@[j]).0 != pool_class,
            decreases self.loaders@.len() - i,
        {
            if self.loaders[i].0 == pool_class {
                return Some(i);
            }
            i += 1;
        }
        None
    }

    /// Registers `loader` for `pool_class`: in place of the loader that the
    /// class had, or after the loaders of the other classes.
    pub fn add_loader(self, pool_class: PoolClass, loader: Loader) -> (registry: Self)
        ensures
            classes_distinct(self.entries()),
            classes_distinct(registry.entries()),
            match registered_at(self.entries(), pool_class) {
                Some(i) => registry.entries() == self.entries().update(i, (pool_class, loader)),
                None => registry.entries() == self.entries().push((pool_class, loader)),
            },
    {
        proof {
            use_type_invariant(&self);
        }
        let ghost before = self.loaders@;
        let at = self.position(pool_class);
        let mut loaders = self.loaders;
        match at {
            Some(i) => {
                proof {
                    lemma_registered_at(before, pool_class, i as int);
                    let after = before.update(i as int, (pool_class, loader));
                    assert forall|a: int, b: int| 0 <= a < b < after.len() implies (
                    #[trigger] after[a]).0 != (#[trigger] after[b]).0 by {
                        assert(after[a].0 == before[a].0 && after[b].0 == before[b].0);
                    }
                }
                loaders.set(i, (pool_class, loader));
            },
            None => {
                proof {
                    lemma_not_registered(before, pool_class);
                    let after = before.push((pool_class, loader));
                    assert forall|a: int, b: int| 0 <= a < b < after.len() implies (
                    #[trigger] after[a]).0 != (#[trigger] after[b]).0 by {
                        if b < before.len() {
                            assert(after[a] == before[a] && after[b] == before[b]);
                        } else {
                            assert(after[a] == before[a]);
                        }
                    }
                }
                loaders.push((pool_class, loader));
            },
        }
        PoolLoaders { loaders }
    }

    /// What the first registered loader that recognises `log` makes of it;
    /// nothing where none recognises it.
    pub fn identify_pool_from_log(&self, log: &Log) -> (found: Option<(PoolId, PoolClass)>)
        ensures
            found == first_recognised(self.entries(), log),
    {
        let mut i: usize = 0;
        proof {
            assert(self.loaders@.subrange(0, self.loaders@.len() as int) =~= self.loaders@);
        }
        while i < self.loaders.len()
            invariant
                i <= self.loaders@.len(),
                first_recognised(self.loaders@, log) == first_recognised(
                    self.loaders@.subrange(i as int, self.loaders@.len() as int),
                    log,
                ),
            decreases self.loaders@.len() - i,
        {
            let ghost rest = self.loaders@.subrange(i as int, self.loaders@.len() as int);
            proof {
                assert(rest[0] == self.loaders@[i as int]);
                assert(rest.subrange(1, rest.len() as int) =~= self.loaders@.subrange(
                    i + 1,
                    self.loaders@.len() as int,
                ));
            }
            let found = self.loaders[i].1.identify_pool_from_log(log);
            if found.is_some() {
                return found;
            }
            i += 1;
        }
        None
    }

    /// The loader registered for `pool_class`, if there is one.
    pub fn get_loader(&self, pool_class: &PoolClass) -> (loader: Option<&Loader>)
        ensures
            match registered_at(self.entries(), *pool_class) {
                Some(i) => loader == Some(&self.entries()[i].1),
                None => loader is None,
            },
    {
        proof {
            use_type_invariant(self);
        }
        match self.position(*pool_class) {
            Some(i) => {
                proof {
                    lemma_registered_at(self.loaders@, *pool_class, i as int);
                }
                Some(&self.loaders[i].1)
            },
            None => {
                proof {
                    lemma_not_registered(self.loaders@, *pool_class);
                }
                None
            },
        }
    }

    /// The classes that have a loader, in the order in which the loaders are
    /// asked.
    pub fn supported_pool_classes(&self) -> (classes: Vec<PoolClass>)
        ensures
            classes@ == self.entries().map_values(|entry: (PoolClass, Loader)| entry.0),
    {
        let mut classes: Vec<PoolClass> = Vec::new();
        let mut i: usize = 0;
        while i < self.loaders.len()
            invariant
                i <= self.loaders@.len(),
                classes@.len() == i,
                forall|j: int| 0 <= j < i ==> classes@[j] == (#[trigger] self.loaders@[j]).0,
            decreases self.loaders@.len() - i,
        {
            classes.push(self.loaders[i].0);
            i += 1;
        }
        proof {
            assert(classes@ =~= self.entries().map_values(|entry: (PoolClass, Loader)| entry.0));
        }
        classes
    }
}

/// The position at which `pool_class` is registered, if it is.
pub open spec fn registered_at(loaders: Seq<(PoolClass, Loader)>, pool_class: PoolClass) -> Option<
    int,
> {
    if exists|i: int| 0 <= i < loaders.len() && (#[trigger] loaders[i]).0 == pool_class {
        Some(choose|i: int| 0 <= i < loaders.len() && (#[trigger] loaders[i]).0 == pool_class)
    } else {
        None
    }
}

/// Among distinct classes a class is registered at one position only.
pub proof fn lemma_registered_at(loaders: Seq<(PoolClass, Loader)>, pool_class: PoolClass, at: int)
    requires
        classes_distinct(loaders),
        0 <= at < loaders.len(),
        loaders[at].0 == pool_class,
    ensures
        registered_at(loaders, pool_class) == Some(at),
{
    let i = choose|i: int| 0 <= i < loaders.len() && (#[trigger] loaders[i]).0 == pool_class;
    if i < at {
        assert(loaders[i].0 != loaders[at].0);
    }
    if at < i {
        assert(loaders[at].0 != loaders[i].0);
    }
}

/// A class that stands at no position is not registered.
pub proof fn lemma_not_registered(loaders: Seq<(PoolClass, Loader)>, pool_class: PoolClass)
    requires
        forall|j: int| 0 <= j < loaders.len() ==> (#[trigger] loaders[j]).0 != pool_class,
    ensures
        registered_at(loaders, pool_class) is None,
{
}

} // verus!
