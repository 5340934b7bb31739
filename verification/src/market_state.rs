//! The replicated storage cache, the registry of pools, and the state that
//! holds both behind one boundary.

use vstd::prelude::*;
use vstd::relations::injective_on;
use vstd::set_lib::{lemma_map_size, lemma_set_disjoint_lens};
use crate::byte_order::lemma_be_value_injective;
use crate::ordered_map::{
    entries_map, is_listing_of, lemma_listing_unique, lemma_prefix_step, strictly_ascending, Key, OrdMap,
};
use crate::sequences::{lemma_prefix_members, lemma_push_members};
use crate::sorting::sort_dedup;
use crate::primitives::{Address, B256, U256};
use crate::state_update::{
    batch_model, batch_touches, delta_at, diff_model, merge_all, merge_delta, merge_diff,
    touched_by, AccountDelta, AccountState, StateUpdate, StateUpdateVec,
};
use crate::types::PoolData;

verus! {

/// What the cache knows, as a mathematical value. A key that a map does not
/// hold is unknown; it is not zero.
#[verifier::ext_equal]
pub ghost struct CacheView {
    /// The known storage slots, by address and slot number.
    pub slots: Map<(Address, U256), U256>,
    /// The known balances.
    pub balances: Map<Address, U256>,
    /// The known sequence numbers.
    pub nonces: Map<Address, u64>,
}

impl CacheView {
    /// The cache that knows nothing.
    pub open spec fn empty() -> CacheView {
        CacheView { slots: Map::empty(), balances: Map::empty(), nonces: Map::empty() }
    }
}

/// The slot number that a 32-byte storage key names.
pub open spec fn slot_of(key: B256) -> U256 {
    U256::of_be_bytes(key.0@)
}

/// Distinct storage keys name distinct slots.
pub proof fn lemma_slot_of_injective(a: B256, b: B256)
    requires
        slot_of(a) == slot_of(b),
    ensures
        a == b,
{
    U256::lemma_of_be_bytes(a.0@);
    U256::lemma_of_be_bytes(b.0@);
    lemma_be_value_injective(a.0@, b.0@);
    assert(a.0 =~= b.0);
}

/// The storage part of a delta, keyed by slot number.
pub open spec fn slot_writes(storage: Map<B256, U256>) -> Map<U256, U256> {
    Map::new(
        |slot: U256| exists|key: B256| #[trigger] storage.contains_key(key) && slot_of(key) == slot,
        |slot: U256|
            storage[choose|key: B256| #[trigger] storage.contains_key(key) && slot_of(key) == slot],
    )
}

/// A storage key of the delta is written to the slot that it names.
pub proof fn lemma_slot_writes_key(storage: Map<B256, U256>, key: B256)
    requires
        storage.contains_key(key),
    ensures
        slot_writes(storage).contains_key(slot_of(key)),
        slot_writes(storage)[slot_of(key)] == storage[key],
{
    let slot = slot_of(key);
    let chosen = choose|k: B256| #[trigger] storage.contains_key(k) && slot_of(k) == slot;
    lemma_slot_of_injective(chosen, key);
}

/// One more storage key in the delta is one more slot written.
pub proof fn lemma_slot_writes_insert(storage: Map<B256, U256>, key: B256, value: U256)
    ensures
        slot_writes(storage.insert(key, value)) == slot_writes(storage).insert(slot_of(key), value),
{
    let more = storage.insert(key, value);
    let left = slot_writes(more);
    let right = slot_writes(storage).insert(slot_of(key), value);
    assert forall|slot: U256| left.contains_key(slot) <==> right.contains_key(slot) by {
        if left.contains_key(slot) {
            let k = choose|k: B256| #[trigger] more.contains_key(k) && slot_of(k) == slot;
            if k != key {
                assert(storage.contains_key(k));
            }
        }
        if right.contains_key(slot) {
            if slot == slot_of(key) {
                assert(more.contains_key(key));
            } else {
                let k = choose|k: B256| #[trigger] storage.contains_key(k) && slot_of(k) == slot;
                assert(more.contains_key(k));
            }
        }
    }
    assert forall|slot: U256| left.contains_key(slot) implies left[slot] == right[slot] by {
        let k = choose|k: B256| #[trigger] more.contains_key(k) && slot_of(k) == slot;
        if k == key {
        } else {
            assert(storage.contains_key(k));
            lemma_slot_writes_key(storage, k);
            if slot_of(key) == slot {
                lemma_slot_of_injective(k, key);
            }
        }
    }
    assert(left =~= right);
}

/// The cache after the changes of one account: each field that the delta
/// holds overwrites, each storage slot that it names is written, and nothing
/// else moves.
pub open spec fn apply_delta(cache: CacheView, address: Address, delta: AccountDelta) -> CacheView {
    CacheView {
        slots: Map::new(
            |p: (Address, U256)|
                cache.slots.contains_key(p) || (p.0 == address && slot_writes(
                    delta.storage,
                ).contains_key(p.1)),
            |p: (Address, U256)|
                if p.0 == address && slot_writes(delta.storage).contains_key(p.1) {
                    slot_writes(delta.storage)[p.1]
                } else {
                    cache.slots[p]
                },
        ),
        balances: match delta.balance {
            Some(balance) => cache.balances.insert(address, balance),
            None => cache.balances,
        },
        nonces: match delta.nonce {
            Some(nonce) => cache.nonces.insert(address, nonce),
            None => cache.nonces,
        },
    }
}

/// The cache after the changes of one transaction: every account of the diff
/// is applied, each to its own address.
pub open spec fn apply_diff(cache: CacheView, diff: Map<Address, AccountDelta>) -> CacheView {
    CacheView {
        slots: Map::new(
            |p: (Address, U256)|
                cache.slots.contains_key(p) || (diff.contains_key(p.0) && slot_writes(
                    diff[p.0].storage,
                ).contains_key(p.1)),
            |p: (Address, U256)|
                if diff.contains_key(p.0) && slot_writes(diff[p.0].storage).contains_key(p.1) {
                    slot_writes(diff[p.0].storage)[p.1]
                } else {
                    cache.slots[p]
                },
        ),
        balances: Map::new(
            |a: Address|
                cache.balances.contains_key(a) || (diff.contains_key(a) && diff[a].balance is Some),
            |a: Address|
                if diff.contains_key(a) && diff[a].balance is Some {
                    diff[a].balance->0
                } else {
                    cache.balances[a]
                },
        ),
        nonces: Map::new(
            |a: Address|
                cache.nonces.contains_key(a) || (diff.contains_key(a) && diff[a].nonce is Some),
            |a: Address|
                if diff.contains_key(a) && diff[a].nonce is Some {
                    diff[a].nonce->0
                } else {
                    cache.nonces[a]
                },
        ),
    }
}

/// The cache after the changes of a block: the diffs are applied one after
/// the other, so that a later transaction overwrites an earlier one.
pub open spec fn apply_batch(cache: CacheView, batch: Seq<Map<Address, AccountDelta>>) -> CacheView
    decreases batch.len(),
{
    if batch.len() == 0 {
        cache
    } else {
        apply_diff(apply_batch(cache, batch.drop_last()), batch.last())
    }
}

/// A diff with one more account is the diff applied and then that account.
pub proof fn lemma_apply_diff_insert(
    cache: CacheView,
    diff: Map<Address, AccountDelta>,
    address: Address,
    delta: AccountDelta,
)
    requires
        !diff.contains_key(address),
    ensures
        apply_diff(cache, diff.insert(address, delta)) == apply_delta(
            apply_diff(cache, diff),
            address,
            delta,
        ),
{
    let left = apply_diff(cache, diff.insert(address, delta));
    let right = apply_delta(apply_diff(cache, diff), address, delta);
    assert(left.slots =~= right.slots);
    assert(left.balances =~= right.balances);
    assert(left.nonces =~= right.nonces);
}

/// A diff that touches no account changes nothing.
pub proof fn lemma_apply_diff_empty(cache: CacheView)
    ensures
        apply_diff(cache, Map::empty()) == cache,
{
    let same = apply_diff(cache, Map::empty());
    assert(same.slots =~= cache.slots);
    assert(same.balances =~= cache.balances);
    assert(same.nonces =~= cache.nonces);
}

/// Applying a diff a second time changes nothing: the cache after two
/// applications is the cache after one.
pub proof fn lemma_apply_diff_idempotent(cache: CacheView, diff: Map<Address, AccountDelta>)
    ensures
        apply_diff(apply_diff(cache, diff), diff) == apply_diff(cache, diff),
{
    let once = apply_diff(cache, diff);
    let twice = apply_diff(once, diff);
    assert(twice.slots =~= once.slots);
    assert(twice.balances =~= once.balances);
    assert(twice.nonces =~= once.nonces);
}

/// Within a block the later transaction wins: where two diffs write the same
/// storage key of the same address, the cache holds the value of the second
/// after both were applied in order.
pub proof fn lemma_later_diff_wins(
    cache: CacheView,
    first: Map<Address, AccountDelta>,
    second: Map<Address, AccountDelta>,
    address: Address,
    key: B256,
)
    requires
        first.contains_key(address),
        first[address].storage.contains_key(key),
        second.contains_key(address),
        second[address].storage.contains_key(key),
    ensures
        apply_batch(cache, seq![first, second]).slots.contains_key((address, slot_of(key))),
        apply_batch(cache, seq![first, second]).slots[(address, slot_of(key))]
            == second[address].storage[key],
{
    let batch = seq![first, second];
    assert(batch.drop_last() =~= seq![first]);
    assert(batch.last() == second);
    assert(apply_batch(cache, batch) == apply_diff(apply_batch(cache, seq![first]), second));
    lemma_slot_writes_key(second[address].storage, key);
}

/// A delta that holds a balance and nothing else leaves every storage slot
/// and every sequence number as it was, those of its own address too.
pub proof fn lemma_balance_only_delta(cache: CacheView, address: Address, delta: AccountDelta)
    requires
        delta.balance is Some,
        delta.nonce is None,
        delta.storage == Map::<B256, U256>::empty(),
    ensures
        apply_delta(cache, address, delta).slots == cache.slots,
        apply_delta(cache, address, delta).nonces == cache.nonces,
        apply_delta(cache, address, delta).balances == cache.balances.insert(
            address,
            delta.balance->0,
        ),
{
    assert(slot_writes(delta.storage) =~= Map::<U256, U256>::empty());
    assert(apply_delta(cache, address, delta).slots =~= cache.slots);
}

/// A diff of one account is that account's delta.
pub proof fn lemma_apply_diff_single(cache: CacheView, address: Address, delta: AccountDelta)
    ensures
        apply_diff(cache, Map::<Address, AccountDelta>::empty().insert(address, delta))
            == apply_delta(cache, address, delta),
{
    lemma_apply_diff_empty(cache);
    lemma_apply_diff_insert(cache, Map::empty(), address, delta);
}

/// The slots that two storage deltas write as one are the slots of the
/// earlier with those of the later written over them.
pub proof fn lemma_slot_writes_union(earlier: Map<B256, U256>, later: Map<B256, U256>)
    ensures
        slot_writes(earlier.union_prefer_right(later)) == slot_writes(earlier).union_prefer_right(
            slot_writes(later),
        ),
{
    let both = earlier.union_prefer_right(later);
    let left = slot_writes(both);
    let right = slot_writes(earlier).union_prefer_right(slot_writes(later));
    assert forall|slot: U256| left.contains_key(slot) <==> right.contains_key(slot) by {
        if left.contains_key(slot) {
            let k = choose|k: B256| #[trigger] both.contains_key(k) && slot_of(k) == slot;
            if later.contains_key(k) {
                lemma_slot_writes_key(later, k);
            } else {
                lemma_slot_writes_key(earlier, k);
            }
        }
        if slot_writes(earlier).contains_key(slot) {
            let k = choose|k: B256| #[trigger] earlier.contains_key(k) && slot_of(k) == slot;
            assert(both.contains_key(k));
        }
        if slot_writes(later).contains_key(slot) {
            let k = choose|k: B256| #[trigger] later.contains_key(k) && slot_of(k) == slot;
            assert(both.contains_key(k));
        }
    }
    assert forall|slot: U256| left.contains_key(slot) implies left[slot] == right[slot] by {
        let k = choose|k: B256| #[trigger] both.contains_key(k) && slot_of(k) == slot;
        lemma_slot_writes_key(both, k);
        if slot_writes(later).contains_key(slot) {
            let j = choose|j: B256| #[trigger] later.contains_key(j) && slot_of(j) == slot;
            lemma_slot_of_injective(j, k);
            lemma_slot_writes_key(later, k);
        } else {
            if later.contains_key(k) {
                lemma_slot_writes_key(later, k);
            }
            lemma_slot_writes_key(earlier, k);
        }
    }
    assert(left =~= right);
}

/// Applying two diffs in order is applying them merged.
pub proof fn lemma_apply_merged_diff(
    cache: CacheView,
    first: Map<Address, AccountDelta>,
    second: Map<Address, AccountDelta>,
)
    ensures
        apply_diff(apply_diff(cache, first), second) == apply_diff(cache, merge_diff(first, second)),
{
    let merged = merge_diff(first, second);
    let left = apply_diff(apply_diff(cache, first), second);
    let right = apply_diff(cache, merged);
    assert forall|a: Address| #[trigger] merged.contains_key(a) implies slot_writes(
        merged[a].storage,
    ) == slot_writes(delta_at(first, a).storage).union_prefer_right(
        slot_writes(delta_at(second, a).storage),
    ) by {
        lemma_slot_writes_union(delta_at(first, a).storage, delta_at(second, a).storage);
        if second.contains_key(a) {
            assert(merged[a].storage == delta_at(first, a).storage.union_prefer_right(
                second[a].storage,
            ));
        } else {
            assert(merged[a] == first[a]);
            assert(delta_at(second, a).storage =~= Map::<B256, U256>::empty());
            assert(first[a].storage.union_prefer_right(Map::<B256, U256>::empty())
                =~= first[a].storage);
        }
    }
    assert(slot_writes(Map::<B256, U256>::empty()) =~= Map::<U256, U256>::empty());
    assert forall|p: (Address, U256)| left.slots.contains_key(p) <==> right.slots.contains_key(
        p,
    ) by {
        if merged.contains_key(p.0) {
            assert(slot_writes(merged[p.0].storage).contains_key(p.1) <==> slot_writes(
                delta_at(first, p.0).storage,
            ).contains_key(p.1) || slot_writes(delta_at(second, p.0).storage).contains_key(p.1));
        }
    }
    assert forall|p: (Address, U256)| left.slots.contains_key(p) implies left.slots[p]
        == right.slots[p] by {
        if merged.contains_key(p.0) {
            assert(slot_writes(merged[p.0].storage).contains_key(p.1) <==> slot_writes(
                delta_at(first, p.0).storage,
            ).contains_key(p.1) || slot_writes(delta_at(second, p.0).storage).contains_key(p.1));
        }
    }
    assert(left.slots =~= right.slots);
    assert(left.balances =~= right.balances);
    assert(left.nonces =~= right.nonces);
}

/// Applying the diffs of a block in order is applying them merged into one
/// diff: the merged update stands for the block.
pub proof fn lemma_apply_merged_batch(cache: CacheView, batch: Seq<Map<Address, AccountDelta>>)
    ensures
        apply_batch(cache, batch) == apply_diff(cache, merge_all(batch)),
    decreases batch.len(),
{
    if batch.len() == 0 {
        lemma_apply_diff_empty(cache);
    } else {
        lemma_apply_merged_batch(cache, batch.drop_last());
        lemma_apply_merged_diff(cache, merge_all(batch.drop_last()), batch.last());
    }
}

/// The affected pools are determined: the touched addresses that are
/// registered have one ascending listing, so two answers that both list them
/// are the same answer.
pub proof fn lemma_affected_pools_determined(
    first: Seq<Address>,
    second: Seq<Address>,
    touched: Set<Address>,
    registered: Set<Address>,
)
    requires
        is_listing_of(first, touched.intersect(registered)),
        is_listing_of(second, touched.intersect(registered)),
    ensures
        first == second,
{
    lemma_listing_unique(first, second, touched.intersect(registered));
}

/// A count as a `usize` can hold it: the count itself, or `usize::MAX` where
/// it is larger.
pub open spec fn saturated(count: nat) -> usize {
    if count <= usize::MAX {
        count as usize
    } else {
        usize::MAX
    }
}

/// The slots that the first `upto` addresses of the storage hold.
spec fn slots_of(entries: Seq<(Address, OrdMap<U256, U256>)>, upto: int) -> Set<(Address, U256)> {
    Set::new(
        |p: (Address, U256)|
            exists|k: int|
                0 <= k < upto && (#[trigger] entries[k]).0 == p.0 && entries[k].1@.contains_key(p.1),
    )
}

/// The replicated storage cache: what is known of the storage, the balance
/// and the sequence number of each address.
#[derive(Debug, Clone)]
pub struct LocalDB {
    storage: OrdMap<Address, OrdMap<U256, U256>>,
    balances: OrdMap<Address, U256>,
    nonces: OrdMap<Address, u64>,
}

impl View for LocalDB {
    type V = CacheView;

    closed spec fn view(&self) -> CacheView {
        CacheView {
            slots: Map::new(
                |p: (Address, U256)|
                    self.storage@.contains_key(p.0) && self.storage@[p.0]@.contains_key(p.1),
                |p: (Address, U256)| self.storage@[p.0]@[p.1],
            ),
            balances: self.balances@,
            nonces: self.nonces@,
        }
    }
}

impl Default for LocalDB {
    fn default() -> (db: Self)
        ensures
            db@ == CacheView::empty(),
    {
        LocalDB::new()
    }
}

impl LocalDB {
    /// The cache that knows nothing.
    pub fn new() -> (db: Self)
        ensures
            db@ == CacheView::empty(),
    {
        let db = LocalDB { storage: OrdMap::new(), balances: OrdMap::new(), nonces: OrdMap::new() };
        proof {
            assert(db@.slots =~= Map::<(Address, U256), U256>::empty());
        }
        db
    }

    /// The value of a storage slot, if it is known.
    pub fn get_storage(&self, address: Address, slot: U256) -> (value: Option<U256>)
        ensures
            value == self@.slots.get((address, slot)),
    {
        match self.storage.get(&address) {
            Some(slots) => match slots.get(&slot) {
                Some(value) => Some(*value),
                None => None,
            },
            None => None,
        }
    }

    /// Records the value of a storage slot.
    pub fn set_storage(&mut self, address: Address, slot: U256, value: U256)
        ensures
            final(self)@ == (CacheView {
                slots: old(self)@.slots.insert((address, slot), value),
                ..old(self)@
            }),
    {
        let previous = self.storage.insert(address, OrdMap::new());
        let mut slots = match previous {
            Some(slots) => slots,
            None => OrdMap::new(),
        };
        slots.insert(slot, value);
        self.storage.insert(address, slots);
        proof {
            assert(self@.slots =~= old(self)@.slots.insert((address, slot), value));
        }
    }

    /// The balance of an address, if it is known.
    pub fn get_balance(&self, address: Address) -> (balance: Option<U256>)
        ensures
            balance == self@.balances.get(address),
    {
        match self.balances.get(&address) {
            Some(balance) => Some(*balance),
            None => None,
        }
    }

    /// Records the balance of an address.
    pub fn set_balance(&mut self, address: Address, balance: U256)
        ensures
            final(self)@ == (CacheView {
                balances: old(self)@.balances.insert(address, balance),
                ..old(self)@
            }),
    {
        self.balances.insert(address, balance);
    }

    /// The sequence number of an address, if it is known.
    pub fn get_nonce(&self, address: Address) -> (nonce: Option<u64>)
        ensures
            nonce == self@.nonces.get(address),
    {
        match self.nonces.get(&address) {
            Some(nonce) => Some(*nonce),
            None => None,
        }
    }

    /// Records the sequence number of an address.
    pub fn set_nonce(&mut self, address: Address, nonce: u64)
        ensures
            final(self)@ == (CacheView {
                nonces: old(self)@.nonces.insert(address, nonce),
                ..old(self)@
            }),
    {
        self.nonces.insert(address, nonce);
    }

    /// The number of known storage slots over all addresses; `usize::MAX`
    /// where the number is larger than that.
    pub fn storage_entries(&self) -> (count: usize)
        ensures
            self@.slots.dom().finite(),
            count == saturated(self@.slots.dom().len()),
    {
        let outer = self.storage.len();
        let mut count: usize = 0;
        let mut i: usize = 0;
        proof {
            self.storage.lemma_seq();
            assert(slots_of(self.storage.seq(), 0) =~= Set::<(Address, U256)>::empty());
        }
        while i < outer
            invariant
                i <= outer,
                outer == self.storage.seq().len(),
                crate::ordered_map::ascending(self.storage.seq()),
                slots_of(self.storage.seq(), i as int).finite(),
                count == saturated(slots_of(self.storage.seq(), i as int).len()),
            decreases outer - i,
        {
            let inner = self.storage.value_at(i);
            let here = inner.len();
            proof {
                let entries = self.storage.seq();
                let address = entries[i as int].0;
                let pair = |slot: U256| (address, slot);
                let block = inner@.dom().map(pair);
                let before = slots_of(entries, i as int);
                inner.lemma_seq();
                assert(injective_on(pair, inner@.dom()));
                lemma_map_size(inner@.dom(), block, pair);
                assert(before.disjoint(block)) by {
                    assert forall|p: (Address, U256)| before.contains(p) implies !block.contains(
                        p,
                    ) by {
                        let k = choose|k: int|
                            0 <= k < i && (#[trigger] entries[k]).0 == p.0 && entries[k].1@.contains_key(
                                p.1,
                            );
                        assert(entries[k].0.rank() < entries[i as int].0.rank());
                    }
                }
                lemma_set_disjoint_lens(before, block);
                assert(slots_of(entries, i + 1) =~= before + block) by {
                    assert forall|p: (Address, U256)| slots_of(entries, i + 1).contains(p) implies (
                    before + block).contains(p) by {
                        let k = choose|k: int|
                            0 <= k < i + 1 && (#[trigger] entries[k]).0 == p.0
                                && entries[k].1@.contains_key(p.1);
                        if k == i {
                            assert(p == pair(p.1));
                        }
                    }
                    assert forall|p: (Address, U256)| (before + block).contains(p) implies slots_of(
                        entries,
                        i + 1,
                    ).contains(p) by {
                        if block.contains(p) {
                            assert(entries[i as int].0 == p.0 && entries[i as int].1@.contains_key(p.1));
                        } else {
                            let k = choose|k: int|
                                0 <= k < i && (#[trigger] entries[k]).0 == p.0
                                    && entries[k].1@.contains_key(p.1);
                            assert(0 <= k < i + 1);
                        }
                    }
                }
            }
            count = count.saturating_add(here);
            i += 1;
        }
        proof {
            let entries = self.storage.seq();
            assert(slots_of(entries, outer as int) =~= self@.slots.dom()) by {
                assert forall|p: (Address, U256)| slots_of(entries, outer as int).contains(p)
                    <==> self@.slots.dom().contains(p) by {
                    if slots_of(entries, outer as int).contains(p) {
                        let k = choose|k: int|
                            0 <= k < outer && (#[trigger] entries[k]).0 == p.0
                                && entries[k].1@.contains_key(p.1);
                        assert(self.storage@[entries[k].0] == entries[k].1);
                    }
                    if self@.slots.dom().contains(p) {
                        let k = choose|k: int|
                            0 <= k < entries.len() && (#[trigger] entries[k]).0 == p.0;
                        assert(self.storage@[entries[k].0] == entries[k].1);
                    }
                }
            }
        }
        count
    }

    /// Applies the changes of one account: each field that `state` holds
    /// overwrites, each storage slot that it names is written.
    pub fn apply_account_state(&mut self, address: Address, state: &AccountState)
        ensures
            final(self)@ == apply_delta(old(self)@, address, state@),
    {
        let ghost before = self@;
        if let Some(nonce) = state.nonce {
            self.set_nonce(address, nonce);
        }
        if let Some(balance) = state.balance {
            self.set_balance(address, balance);
        }
        let count = state.storage.len();
        let mut i: usize = 0;
        proof {
            state.storage.lemma_seq();
            let none = AccountDelta { storage: entries_map(state.storage.seq().take(0)), ..state@ };
            assert(none.storage =~= Map::<B256, U256>::empty());
            assert(self@.slots =~= apply_delta(before, address, none).slots);
        }
        while i < count
            invariant
                i <= count,
                count == state.storage.seq().len(),
                crate::ordered_map::ascending(state.storage.seq()),
                self@ == apply_delta(
                    before,
                    address,
                    AccountDelta {
                        storage: entries_map(state.storage.seq().take(i as int)),
                        ..state@
                    },
                ),
            decreases count - i,
        {
            let key = state.storage.key_at(i);
            let value = *state.storage.value_at(i);
            let slot = U256::from_be_bytes(key.0);
            let ghost written = entries_map(state.storage.seq().take(i as int));
            let ghost current = self@;
            self.set_storage(address, slot, value);
            proof {
                lemma_prefix_step(state.storage.seq(), i as int);
                lemma_slot_writes_insert(written, key, value);
                let next = AccountDelta { storage: written.insert(key, value), ..state@ };
                assert(self@.slots =~= apply_delta(before, address, next).slots);
            }
            i += 1;
        }
        proof {
            assert(state.storage.seq().take(count as int) =~= state.storage.seq());
        }
    }

    /// Applies the changes of one transaction.
    pub fn apply_state_update(&mut self, update: &StateUpdate)
        ensures
            final(self)@ == apply_diff(old(self)@, update.model()),
    {
        let ghost before = self@;
        let count = update.len();
        let mut i: usize = 0;
        proof {
            update.lemma_seq();
            lemma_apply_diff_empty(before);
            assert(diff_model(update.seq().take(0)) =~= Map::<Address, AccountDelta>::empty());
        }
        while i < count
            invariant
                i <= count,
                count == update.seq().len(),
                crate::ordered_map::ascending(update.seq()),
                self@ == apply_diff(before, diff_model(update.seq().take(i as int))),
            decreases count - i,
        {
            let address = update.key_at(i);
            let state = update.value_at(i);
            proof {
                lemma_prefix_step(update.seq(), i as int);
                let done = diff_model(update.seq().take(i as int));
                assert(diff_model(update.seq().take(i + 1)) =~= done.insert(address, state@));
                lemma_apply_diff_insert(before, done, address, state@);
            }
            self.apply_account_state(address, state);
            i += 1;
        }
        proof {
            assert(update.seq().take(count as int) =~= update.seq());
            assert(diff_model(update.seq()) =~= update.model());
        }
    }

    /// Applies the changes of a block, transaction by transaction.
    pub fn apply_state_update_vec(&mut self, updates: &StateUpdateVec)
        ensures
            final(self)@ == apply_batch(old(self)@, batch_model(updates@)),
    {
        let ghost before = self@;
        let mut i: usize = 0;
        proof {
            assert(batch_model(updates@.take(0)) =~= Seq::<Map<Address, AccountDelta>>::empty());
        }
        while i < updates.len()
            invariant
                i <= updates@.len(),
                self@ == apply_batch(before, batch_model(updates@.take(i as int))),
            decreases updates@.len() - i,
        {
            proof {
                let next = batch_model(updates@.take(i + 1));
                assert(next.drop_last() =~= batch_model(updates@.take(i as int)));
                assert(next.last() == updates@[i as int].model());
            }
            self.apply_state_update(&updates[i]);
            i += 1;
        }
        proof {
            assert(updates@.take(updates@.len() as int) =~= updates@);
        }
    }
}

/// How the watermark reacts to a block that does not follow it directly.
#[derive(Debug, Clone, Copy, PartialEq, Eq, Structural)]
pub enum WatermarkPolicy {
    /// Only the block after the watermark is accepted.
    Strict,
    /// Every block is accepted; the watermark moves forward over gaps and
    /// stays where it is for a block at or below it.
    BestEffort,
}

/// A block that the strict policy refused.
#[derive(Debug, Clone, Copy, PartialEq, Eq, Structural)]
pub struct OutOfOrderBlock {
    /// The watermark when the block arrived.
    pub watermark: u64,
    /// The height of the refused block.
    pub block_number: u64,
}

/// How an accepted block stood to the watermark.
#[derive(Debug, Clone, Copy, PartialEq, Eq, Structural)]
pub enum Advance {
    /// The block followed the watermark directly.
    InSequence,
    /// The block left a gap or was not new; the best-effort policy took it.
    OutOfSequence,
}

/// Whether `block_number` is the height that follows `watermark`.
pub open spec fn follows(watermark: u64, block_number: u64) -> bool {
    block_number == watermark + 1
}

/// The larger of two heights.
pub open spec fn later(a: u64, b: u64) -> u64 {
    if a < b {
        b
    } else {
        a
    }
}

/// What a block does to the watermark: the outcome, and the watermark after
/// it. The block after the watermark is always accepted. Any other block is
/// refused under the strict policy, which leaves the watermark where it is;
/// under the best-effort policy it is accepted, and the watermark moves only
/// forward.
pub open spec fn advanced(watermark: u64, policy: WatermarkPolicy, block_number: u64) -> (
    Result<Advance, OutOfOrderBlock>,
    u64,
) {
    if follows(watermark, block_number) {
        (Ok(Advance::InSequence), block_number)
    } else if policy == WatermarkPolicy::Strict {
        (Err(OutOfOrderBlock { watermark, block_number }), watermark)
    } else {
        (Ok(Advance::OutOfSequence), later(watermark, block_number))
    }
}

/// Counts of what the market state holds.
#[derive(Debug, Clone, Copy)]
pub struct MarketStats {
    /// The number of registered pools.
    pub total_pools: usize,
    /// The watermark: the height of the last block applied.
    pub current_block: u64,
    /// The number of known storage slots over all addresses.
    pub storage_entries: usize,
}

/// The cache, the registry of pools and the watermark, kept together.
#[derive(Debug, Clone)]
pub struct MarketState {
    /// The replicated storage cache.
    pub db: LocalDB,
    /// The registered pools by address.
    pub pools: OrdMap<Address, PoolData>,
    /// The watermark: the height of the last block applied.
    pub current_block: u64,
    /// How the watermark reacts to a block out of order.
    pub policy: WatermarkPolicy,
}

impl Default for MarketState {
    fn default() -> (state: Self)
        ensures
            state.db@ == CacheView::empty(),
            state.pools@ == Map::<Address, PoolData>::empty(),
            state.current_block == 0,
            state.policy == WatermarkPolicy::BestEffort,
    {
        MarketState::new()
    }
}

impl MarketState {
    /// The state that knows nothing, under the best-effort policy.
    pub fn new() -> (state: Self)
        ensures
            state.db@ == CacheView::empty(),
            state.pools@ == Map::<Address, PoolData>::empty(),
            state.current_block == 0,
            state.policy == WatermarkPolicy::BestEffort,
    {
        MarketState::with_policy(WatermarkPolicy::BestEffort)
    }

    /// The state that knows nothing, under the given policy.
    pub fn with_policy(policy: WatermarkPolicy) -> (state: Self)
        ensures
            state.db@ == CacheView::empty(),
            state.pools@ == Map::<Address, PoolData>::empty(),
            state.current_block == 0,
            state.policy == policy,
    {
        MarketState { db: LocalDB::new(), pools: OrdMap::new(), current_block: 0, policy }
    }

    /// Registers a pool under its address, in place of what was registered
    /// there.
    pub fn add_pool(&mut self, pool: PoolData)
        ensures
            final(self).pools@ == old(self).pools@.insert(pool.address(), pool),
            final(self).db == old(self).db,
            final(self).current_block == old(self).current_block,
            final(self).policy == old(self).policy,
    {
        let address = pool.address();
        self.pools.insert(address, pool);
    }

    /// The pool registered under `address`, if there is one.
    pub fn get_pool(&self, address: &Address) -> (pool: Option<&PoolData>)
        ensures
            match pool {
                Some(p) => self.pools@.contains_key(*address) && *p == self.pools@[*address],
                None => !self.pools@.contains_key(*address),
            },
    {
        self.pools.get(address)
    }

    /// Whether a pool is registered under `address`.
    pub fn is_pool(&self, address: &Address) -> (known: bool)
        ensures
            known == self.pools@.contains_key(*address),
    {
        self.pools.contains_key(address)
    }

    /// Applies the changes of one transaction to the cache.
    pub fn apply_state_update(&mut self, update: &StateUpdate)
        ensures
            final(self).db@ == apply_diff(old(self).db@, update.model()),
            final(self).pools == old(self).pools,
            final(self).current_block == old(self).current_block,
            final(self).policy == old(self).policy,
    {
        self.db.apply_state_update(update);
    }

    /// Applies the changes of a block to the cache, transaction by
    /// transaction.
    pub fn apply_state_update_vec(&mut self, updates: &StateUpdateVec)
        ensures
            final(self).db@ == apply_batch(old(self).db@, batch_model(updates@)),
            final(self).pools == old(self).pools,
            final(self).current_block == old(self).current_block,
            final(self).policy == old(self).policy,
    {
        self.db.apply_state_update_vec(updates);
    }

    /// Moves the watermark to `block_number` as the policy allows. The block
    /// after the watermark is always accepted. Any other block is refused
    /// under the strict policy, which leaves the watermark where it is; under
    /// the best-effort policy it is accepted, and the watermark moves only
    /// forward.
    pub fn update_block(&mut self, block_number: u64) -> (outcome: Result<Advance, OutOfOrderBlock>)
        ensures
            final(self).db == old(self).db,
            final(self).pools == old(self).pools,
            final(self).policy == old(self).policy,
            final(self).current_block >= old(self).current_block,
            (outcome, final(self).current_block) == advanced(
                old(self).current_block,
                old(self).policy,
                block_number,
            ),
            follows(old(self).current_block, block_number) ==> outcome == Ok::<
                Advance,
                OutOfOrderBlock,
            >(Advance::InSequence) && final(self).current_block == block_number,
            !follows(old(self).current_block, block_number) && old(self).policy
                == WatermarkPolicy::Strict ==> outcome == Err::<Advance, OutOfOrderBlock>(
                OutOfOrderBlock { watermark: old(self).current_block, block_number },
            ) && final(self).current_block == old(self).current_block,
            !follows(old(self).current_block, block_number) && old(self).policy
                == WatermarkPolicy::BestEffort ==> outcome == Ok::<Advance, OutOfOrderBlock>(
                Advance::OutOfSequence,
            ) && final(self).current_block == later(old(self).current_block, block_number),
    {
        if block_number > 0 && block_number - 1 == self.current_block {
            self.current_block = block_number;
            Ok(Advance::InSequence)
        } else {
            match self.policy {
                WatermarkPolicy::Strict => Err(
                    OutOfOrderBlock { watermark: self.current_block, block_number },
                ),
                WatermarkPolicy::BestEffort => {
                    if self.current_block < block_number {
                        self.current_block = block_number;
                    }
                    Ok(Advance::OutOfSequence)
                },
            }
        }
    }

    /// The registered pools that a transaction touched, in ascending order of
    /// address.
    pub fn get_affected_pools(&self, update: &StateUpdate) -> (affected: Vec<Address>)
        ensures
            is_listing_of(affected@, update.model().dom().intersect(self.pools@.dom())),
    {
        let mut affected: Vec<Address> = Vec::new();
        let count = update.len();
        let mut i: usize = 0;
        proof {
            update.lemma_seq();
            update.lemma_key_seq();
        }
        while i < count
            invariant
                i <= count,
                count == update.seq().len(),
                strictly_ascending(update.key_seq()),
                update.key_seq().len() == count,
                strictly_ascending(affected@),
                forall|j: int|
                    0 <= j < affected@.len() ==> exists|k: int|
                        0 <= k < i && update.key_seq()[k] == #[trigger] affected@[j],
                forall|j: int| 0 <= j < affected@.len() ==> self.pools@.contains_key(#[trigger] affected@[j]),
                forall|k: int|
                    0 <= k < i && self.pools@.contains_key(#[trigger] update.key_seq()[k])
                        ==> affected@.contains(update.key_seq()[k]),
            decreases count - i,
        {
            let address = update.key_at(i);
            assert(address == update.key_seq()[i as int]);
            if self.is_pool(&address) {
                let ghost before = affected@;
                affected.push(address);
                proof {
                    assert forall|a: int, b: int| 0 <= a < b < affected@.len() implies (
                    #[trigger] affected@[a]).rank() < (#[trigger] affected@[b]).rank() by {
                        if b == before.len() {
                            let k = choose|k: int|
                                0 <= k < i && update.key_seq()[k] == before[a];
                            assert(update.key_seq()[k].rank() < update.key_seq()[i as int].rank());
                        }
                    }
                    assert forall|j: int| 0 <= j < affected@.len() implies exists|k: int|
                        0 <= k < i + 1 && update.key_seq()[k] == #[trigger] affected@[j] by {
                        if j < before.len() {
                            let k = choose|k: int|
                                0 <= k < i && update.key_seq()[k] == before[j];
                            assert(update.key_seq()[k] == affected@[j]);
                        } else {
                            assert(update.key_seq()[i as int] == affected@[j]);
                        }
                    }
                    assert forall|k: int|
                        0 <= k < i + 1 && self.pools@.contains_key(
                            #[trigger] update.key_seq()[k],
                        ) implies affected@.contains(update.key_seq()[k]) by {
                        if k < i {
                            let j = choose|j: int|
                                0 <= j < before.len() && before[j] == update.key_seq()[k];
                            assert(affected@[j] == update.key_seq()[k]);
                        } else {
                            assert(affected@[before.len() as int] == update.key_seq()[k]);
                        }
                    }
                }
            }
            i += 1;
        }
        proof {
            assert(update.model().dom() =~= update@.dom());
            let members = update.model().dom().intersect(self.pools@.dom());
            assert forall|a: Address|
                #![trigger affected@.contains(a)]
                #![trigger members.contains(a)]
                affected@.contains(a) <==> members.contains(a) by {
                if affected@.contains(a) {
                    let j = choose|j: int| 0 <= j < affected@.len() && affected@[j] == a;
                    let k = choose|k: int|
                        0 <= k < i && update.key_seq()[k] == affected@[j];
                    assert(update.key_seq().contains(a));
                }
                if members.contains(a) {
                    assert(update@.dom().contains(a));
                    assert(update.key_seq().contains(a));
                    let k = choose|k: int| 0 <= k < update.key_seq().len() && update.key_seq()[k] == a;
                    assert(self.pools@.contains_key(update.key_seq()[k]));
                }
            }
        }
        affected
    }

    /// The registered pools that some transaction of a block touched, each
    /// once, in ascending order of address.
    pub fn get_affected_pools_vec(&self, updates: &StateUpdateVec) -> (affected: Vec<Address>)
        ensures
            is_listing_of(
                affected@,
                touched_by(batch_model(updates@)).intersect(self.pools@.dom()),
            ),
    {
        let mut all: Vec<Address> = Vec::new();
        let mut i: usize = 0;
        proof {
            assert forall|a: Address| !all@.contains(a) by {
                assert(all@.len() == 0);
            }
        }
        while i < updates.len()
            invariant
                i <= updates@.len(),
                forall|a: Address|
                    #![trigger all@.contains(a)]
                    all@.contains(a) <==> batch_touches(batch_model(updates@.take(i as int)), a)
                        && self.pools@.contains_key(a),
            decreases updates@.len() - i,
        {
            let touched = self.get_affected_pools(&updates[i]);
            let ghost done = batch_model(updates@.take(i as int));
            let ghost next = batch_model(updates@.take(i + 1));
            let ghost here = updates@[i as int].model();
            let mut j: usize = 0;
            proof {
                assert forall|a: Address| !touched@.take(0).contains(a) by {
                    assert(touched@.take(0).len() == 0);
                }
            }
            while j < touched.len()
                invariant
                    j <= touched@.len(),
                    forall|a: Address|
                        #![trigger all@.contains(a)]
                        all@.contains(a) <==> (batch_touches(done, a)
                            && self.pools@.contains_key(a)) || touched@.take(j as int).contains(a),
                decreases touched@.len() - j,
            {
                let address = touched[j];
                let ghost before = all@;
                all.push(address);
                proof {
                    assert forall|a: Address|
                        #![trigger all@.contains(a)]
                        all@.contains(a) <==> (batch_touches(done, a)
                            && self.pools@.contains_key(a)) || touched@.take(j + 1).contains(a) by {
                        lemma_push_members(before, address, a);
                        lemma_prefix_members(touched@, j as int, a);
                    }
                }
                j += 1;
            }
            proof {
                assert(next.drop_last() =~= done);
                assert(next.last() == here);
                assert(touched@.take(touched@.len() as int) =~= touched@);
                assert forall|a: Address|
                    #![trigger all@.contains(a)]
                    all@.contains(a) <==> batch_touches(next, a) && self.pools@.contains_key(a) by {
                    assert(touched@.contains(a) <==> here.dom().intersect(self.pools@.dom()).contains(
                        a,
                    ));
                    if batch_touches(done, a) {
                        let k = choose|k: int| 0 <= k < done.len() && (#[trigger] done[k]).contains_key(a);
                        assert(next[k] == done[k]);
                    }
                    if touched@.contains(a) {
                        assert(next[i as int].contains_key(a));
                    }
                    if batch_touches(next, a) && self.pools@.contains_key(a) {
                        let k = choose|k: int| 0 <= k < next.len() && (#[trigger] next[k]).contains_key(a);
                        if k < i {
                            assert(done[k] == next[k]);
                        } else {
                            assert(touched@.contains(a));
                        }
                    }
                }
            }
            i += 1;
        }
        let affected = sort_dedup(&all);
        proof {
            assert(updates@.take(updates@.len() as int) =~= updates@);
            let members = touched_by(batch_model(updates@)).intersect(self.pools@.dom());
            assert(all@.to_set() =~= members);
        }
        affected
    }

    /// The counts of what the state holds.
    pub fn stats(&self) -> (stats: MarketStats)
        ensures
            stats.total_pools == self.pools@.dom().len(),
            stats.current_block == self.current_block,
            stats.storage_entries == saturated(self.db@.slots.dom().len()),
    {
        MarketStats {
            total_pools: self.pools.len(),
            current_block: self.current_block,
            storage_entries: self.db.storage_entries(),
        }
    }
}

} // verus!
