//! What a block changes: the partial update of one account, the updates of
//! one transaction, and the ordered updates of a block.

use vstd::prelude::*;
use crate::ordered_map::{ascending, entries_map, is_listing_of, lemma_prefix_step, OrdMap};
use crate::primitives::{Address, B256, U256};

verus! {

/// The changes of one account. A field that is `None`, and a storage key that
/// is absent, stand for "unchanged", never for zero.
#[derive(Debug, Clone)]
pub struct AccountState {
    /// The new sequence number, if it changed.
    pub nonce: Option<u64>,
    /// The new balance, if it changed.
    pub balance: Option<U256>,
    /// The new code, if the account was deployed.
    pub code: Option<Vec<u8>>,
    /// The storage slots that changed, each with its new value.
    pub storage: OrdMap<B256, U256>,
}

/// The changes of one account as a mathematical value.
#[verifier::ext_equal]
pub ghost struct AccountDelta {
    pub nonce: Option<u64>,
    pub balance: Option<U256>,
    pub code: Option<Seq<u8>>,
    pub storage: Map<B256, U256>,
}

impl AccountDelta {
    /// The delta that changes nothing.
    pub open spec fn unchanged() -> AccountDelta {
        AccountDelta { nonce: None, balance: None, code: None, storage: Map::empty() }
    }
}

impl View for AccountState {
    type V = AccountDelta;

    open spec fn view(&self) -> AccountDelta {
        AccountDelta {
            nonce: self.nonce,
            balance: self.balance,
            code: match self.code {
                Some(code) => Some(code@),
                None => None,
            },
            storage: self.storage@,
        }
    }
}

impl Default for AccountState {
    /// The state that changes nothing.
    fn default() -> (state: Self)
        ensures
            state@ == AccountDelta::unchanged(),
    {
        AccountState { nonce: None, balance: None, code: None, storage: OrdMap::new() }
    }
}

/// The changes of one transaction: at most one `AccountState` per address.
pub type StateUpdate = OrdMap<Address, AccountState>;

/// The changes of one block: one `StateUpdate` per transaction, in the order
/// in which the transactions ran.
pub type StateUpdateVec = Vec<StateUpdate>;

/// The changes of a block together with the block's identity.
#[derive(Debug, Clone)]
pub struct BlockStateUpdate {
    /// The height of the block.
    pub block_number: u64,
    /// The hash of the block; it names the block and is never interpreted.
    pub block_hash: B256,
    /// The changes, one entry per transaction.
    pub state_update: StateUpdateVec,
}

impl BlockStateUpdate {
    /// The envelope of the given parts.
    pub fn new(block_number: u64, block_hash: B256, state_update: StateUpdateVec) -> (update: Self)
        ensures
            update.block_number == block_number,
            update.block_hash == block_hash,
            update.state_update == state_update,
    {
        BlockStateUpdate { block_number, block_hash, state_update }
    }
}

/// The changes of a block as a mathematical value: one map per transaction.
pub open spec fn batch_model(updates: Seq<StateUpdate>) -> Seq<Map<Address, AccountDelta>> {
    updates.map_values(|update: StateUpdate| update.model())
}

/// The diff that a sequence of entries spells, each account by its view.
pub open spec fn diff_model(entries: Seq<(Address, AccountState)>) -> Map<Address, AccountDelta> {
    entries_map(entries).map_values(|state: AccountState| state@)
}

/// Whether some transaction of the block touched `address`.
pub open spec fn batch_touches(batch: Seq<Map<Address, AccountDelta>>, address: Address) -> bool {
    exists|i: int| 0 <= i < batch.len() && (#[trigger] batch[i]).contains_key(address)
}

/// The addresses that some transaction of the block touched.
pub open spec fn touched_by(batch: Seq<Map<Address, AccountDelta>>) -> Set<Address> {
    Set::new(|address: Address| batch_touches(batch, address))
}

/// The addresses that a transaction touched, in ascending order.
pub fn get_touched_addresses(state_update: &StateUpdate) -> (addresses: Vec<Address>)
    ensures
        addresses@ == state_update.key_seq(),
        is_listing_of(addresses@, state_update.model().dom()),
{
    let addresses = state_update.keys();
    proof {
        state_update.lemma_key_seq();
        assert(state_update.model().dom() =~= state_update@.dom());
    }
    addresses
}

/// Two deltas of one account as one: a field of the later delta stands where
/// it is set, else that of the earlier; a storage key of the later delta
/// stands over the same key of the earlier.
pub open spec fn merge_delta(earlier: AccountDelta, later: AccountDelta) -> AccountDelta {
    AccountDelta {
        nonce: if later.nonce is Some {
            later.nonce
        } else {
            earlier.nonce
        },
        balance: if later.balance is Some {
            later.balance
        } else {
            earlier.balance
        },
        code: if later.code is Some {
            later.code
        } else {
            earlier.code
        },
        storage: earlier.storage.union_prefer_right(later.storage),
    }
}

/// What is merged so far under `address`; nothing stands for no change.
pub open spec fn delta_at(merged: Map<Address, AccountDelta>, address: Address) -> AccountDelta {
    if merged.contains_key(address) {
        merged[address]
    } else {
        AccountDelta::unchanged()
    }
}

/// Two diffs as one: the accounts of both, each account of the later diff
/// merged over what the earlier holds for its address.
pub open spec fn merge_diff(
    merged: Map<Address, AccountDelta>,
    update: Map<Address, AccountDelta>,
) -> Map<Address, AccountDelta> {
    Map::new(
        |a: Address| merged.contains_key(a) || update.contains_key(a),
        |a: Address|
            if update.contains_key(a) {
                merge_delta(delta_at(merged, a), update[a])
            } else {
                merged[a]
            },
    )
}

/// The diffs of a block as one diff, merged in order.
pub open spec fn merge_all(batch: Seq<Map<Address, AccountDelta>>) -> Map<Address, AccountDelta>
    decreases batch.len(),
{
    if batch.len() == 0 {
        Map::empty()
    } else {
        merge_diff(merge_all(batch.drop_last()), batch.last())
    }
}

/// Merges the later account state into the earlier one.
fn merge_account(entry: &mut AccountState, later: &AccountState)
    ensures
        final(entry)@ == merge_delta(old(entry)@, later@),
{
    let ghost earlier = entry@;
    if let Some(nonce) = later.nonce {
        entry.nonce = Some(nonce);
    }
    if let Some(balance) = later.balance {
        entry.balance = Some(balance);
    }
    if let Some(code) = &later.code {
        let copy = code.clone();
        assert(copy@ =~= code@);
        entry.code = Some(copy);
    }
    let count = later.storage.len();
    let mut i: usize = 0;
    proof {
        later.storage.lemma_seq();
        assert(earlier.storage.union_prefer_right(entries_map(later.storage.seq().take(0)))
            =~= earlier.storage);
    }
    while i < count
        invariant
            i <= count,
            count == later.storage.seq().len(),
            ascending(later.storage.seq()),
            entry.nonce == merge_delta(earlier, later@).nonce,
            entry.balance == merge_delta(earlier, later@).balance,
            entry@.code == merge_delta(earlier, later@).code,
            entry.storage@ == earlier.storage.union_prefer_right(
                entries_map(later.storage.seq().take(i as int)),
            ),
        decreases count - i,
    {
        let key = later.storage.key_at(i);
        let value = *later.storage.value_at(i);
        proof {
            lemma_prefix_step(later.storage.seq(), i as int);
        }
        entry.storage.insert(key, value);
        proof {
            assert(entry.storage@ =~= earlier.storage.union_prefer_right(
                entries_map(later.storage.seq().take(i + 1)),
            ));
        }
        i += 1;
    }
    proof {
        assert(later.storage.seq().take(count as int) =~= later.storage.seq());
        assert(entry@ =~= merge_delta(earlier, later@));
    }
}

/// Merges the account states of `update` into `merged`.
fn merge_update(merged: &mut StateUpdate, update: &StateUpdate)
    ensures
        final(merged).model() == merge_diff(old(merged).model(), update.model()),
{
    let ghost start = merged.model();
    let count = update.len();
    let mut i: usize = 0;
    proof {
        update.lemma_seq();
        assert(diff_model(update.seq().take(0)) =~= Map::<Address, AccountDelta>::empty());
        assert(merge_diff(start, Map::empty()) =~= start);
    }
    while i < count
        invariant
            i <= count,
            count == update.seq().len(),
            ascending(update.seq()),
            merged.model() == merge_diff(start, diff_model(update.seq().take(i as int))),
        decreases count - i,
    {
        let address = update.key_at(i);
        let later = update.value_at(i);
        let ghost done = diff_model(update.seq().take(i as int));
        let ghost before = merged.model();
        let previous = merged.insert(address, AccountState::default());
        let mut entry = match previous {
            Some(entry) => entry,
            None => AccountState::default(),
        };
        assert(entry@ == delta_at(before, address));
        merge_account(&mut entry, later);
        merged.insert(address, entry);
        proof {
            lemma_prefix_step(update.seq(), i as int);
            let next = diff_model(update.seq().take(i + 1));
            assert(next =~= done.insert(address, later@));
            assert(!done.contains_key(address));
            assert(merged.model() =~= before.insert(address, entry@));
            assert(delta_at(before, address) == delta_at(start, address));
            assert(merged.model() =~= merge_diff(start, next));
        }
        i += 1;
    }
    proof {
        assert(update.seq().take(count as int) =~= update.seq());
        assert(diff_model(update.seq()) =~= update.model());
    }
}

/// Merges the updates of several transactions into one update, in order: for
/// each address the later transaction's fields and storage keys stand over
/// the earlier one's, and what only one of them holds is kept.
pub fn merge_state_updates(updates: Vec<StateUpdate>) -> (merged: StateUpdate)
    ensures
        merged.model() == merge_all(batch_model(updates@)),
{
    let mut merged: StateUpdate = OrdMap::new();
    let mut i: usize = 0;
    proof {
        assert(batch_model(updates@.take(0)) =~= Seq::<Map<Address, AccountDelta>>::empty());
        assert(merged.model() =~= Map::<Address, AccountDelta>::empty());
    }
    while i < updates.len()
        invariant
            i <= updates@.len(),
            merged.model() == merge_all(batch_model(updates@.take(i as int))),
        decreases updates@.len() - i,
    {
        proof {
            let next = batch_model(updates@.take(i + 1));
            assert(next.drop_last() =~= batch_model(updates@.take(i as int)));
            assert(next.last() == updates@[i as int].model());
        }
        merge_update(&mut merged, &updates[i]);
        i += 1;
    }
    proof {
        assert(updates@.take(updates@.len() as int) =~= updates@);
    }
    merged
}

} // verus!
