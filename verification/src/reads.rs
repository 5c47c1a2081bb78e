//! State that was read while a block was executed, kept so that a later execution on the same
//! parent does not read it again.

use std::sync::Arc;

use vstd::prelude::*;

use crate::primitives::{Address, B256, U256};

verus! {

/// What is known of an account besides its storage.
#[derive(Debug)]
pub struct AccountInfo {
    /// Balance in wei.
    pub balance: U256,
    /// Number of transactions sent.
    pub nonce: u64,
    /// Hash of the account's code.
    pub code_hash: B256,
    /// The code itself, where it has been loaded.
    pub code: Option<Arc<Vec<u8>>>,
}

impl Clone for AccountInfo {
    fn clone(&self) -> (copy: Self)
        ensures
            copy == *self,
    {
        AccountInfo {
            balance: self.balance,
            nonce: self.nonce,
            code_hash: self.code_hash,
            code: match &self.code {
                Some(code) => Some(code.clone()),
                None => None,
            },
        }
    }
}

/// One storage slot of an account that a block touched.
#[derive(Clone, Copy, Debug)]
pub struct StorageSlot {
    /// Key of the slot.
    pub key: U256,
    /// Value before the block.
    pub previous_or_original_value: U256,
    /// Value after the block.
    pub present_value: U256,
}

/// An account that a block touched.
#[derive(Debug)]
pub struct BundleAccount {
    /// Address of the account.
    pub address: Address,
    /// State of the account after the block; `None` if it no longer exists.
    pub info: Option<AccountInfo>,
    /// Slots that the block touched.
    pub storage: Vec<StorageSlot>,
}

/// A cached account. Of several entries for one storage key, the last one holds.
#[derive(Debug)]
pub struct CachedAccount {
    /// State of the account; `None` if it does not exist.
    pub info: Option<AccountInfo>,
    /// Storage keys and their values.
    pub storage: Vec<(U256, U256)>,
}

/// Cached accounts, contracts and block hashes. Of several entries for one key, the last one
/// holds.
#[derive(Debug)]
pub struct CachedReads {
    /// Accounts by address.
    pub accounts: Vec<(Address, Arc<CachedAccount>)>,
    /// Code by its hash.
    pub contracts: Vec<(B256, Arc<Vec<u8>>)>,
    /// Block hashes by block number.
    pub block_hashes: Vec<(u64, B256)>,
}

/// A [`CachedAccount`] with its storage as a map.
pub struct CachedAccountView {
    /// State of the account.
    pub info: Option<AccountInfo>,
    /// Values by storage key.
    pub storage: Map<U256, U256>,
}

/// [`CachedReads`] as maps.
pub struct CachedReadsView {
    /// Accounts by address.
    pub accounts: Map<Address, CachedAccountView>,
    /// Code by its hash.
    pub contracts: Map<B256, Seq<u8>>,
    /// Block hashes by block number.
    pub block_hashes: Map<u64, B256>,
}

/// The map that a list of entries stands for: of two entries for one key, the later one holds.
pub open spec fn last_entries<K, V>(entries: Seq<(K, V)>) -> Map<K, V>
    decreases entries.len(),
{
    if entries.len() == 0 {
        Map::empty()
    } else {
        last_entries(entries.drop_last()).insert(entries.last().0, entries.last().1)
    }
}

impl View for CachedAccount {
    type V = CachedAccountView;

    open spec fn view(&self) -> CachedAccountView {
        CachedAccountView { info: self.info, storage: last_entries(self.storage@) }
    }
}

impl View for CachedReads {
    type V = CachedReadsView;

    open spec fn view(&self) -> CachedReadsView {
        CachedReadsView {
            accounts: last_entries(
                self.accounts@.map_values(|entry: (Address, Arc<CachedAccount>)| (entry.0, entry.1@)),
            ),
            contracts: last_entries(
                self.contracts@.map_values(|entry: (B256, Arc<Vec<u8>>)| (entry.0, entry.1@)),
            ),
            block_hashes: last_entries(self.block_hashes@),
        }
    }
}

impl CachedReadsView {
    /// A cache that holds nothing.
    pub open spec fn empty() -> Self {
        CachedReadsView {
            accounts: Map::empty(),
            contracts: Map::empty(),
            block_hashes: Map::empty(),
        }
    }

    /// The cache after an account has been put in.
    pub open spec fn with_account(
        self,
        address: Address,
        info: AccountInfo,
        storage: Map<U256, U256>,
    ) -> Self {
        CachedReadsView {
            accounts: self.accounts.insert(
                address,
                CachedAccountView { info: Some(info), storage },
            ),
            ..self
        }
    }
}

/// The storage that an account has after a block: the present value of each touched slot.
pub open spec fn present_storage(slots: Seq<StorageSlot>) -> Map<U256, U256> {
    last_entries(slots.map_values(|slot: StorageSlot| (slot.key, slot.present_value)))
}

/// The cache that a block leaves: every touched account that still exists, with its present
/// storage.
pub open spec fn reads_after(accounts: Seq<BundleAccount>) -> CachedReadsView
    decreases accounts.len(),
{
    if accounts.len() == 0 {
        CachedReadsView::empty()
    } else {
        let before = reads_after(accounts.drop_last());
        let account = accounts.last();
        match account.info {
            Some(info) => before.with_account(
                account.address,
                info,
                present_storage(account.storage@),
            ),
            None => before,
        }
    }
}

impl Default for CachedReads {
    fn default() -> (reads: Self)
        ensures
            reads@ == CachedReadsView::empty(),
    {
        let reads = CachedReads {
            accounts: Vec::new(),
            contracts: Vec::new(),
            block_hashes: Vec::new(),
        };
        assert(reads@ == CachedReadsView::empty());
        reads
    }
}

impl Clone for CachedReads {
    fn clone(&self) -> (copy: Self)
        ensures
            copy@ == self@,
    {
        let mut accounts: Vec<(Address, Arc<CachedAccount>)> = Vec::new();
        let mut i: usize = 0;
        while i < self.accounts.len()
            invariant
                i <= self.accounts.len(),
                accounts@ == self.accounts@.take(i as int),
            decreases self.accounts.len() - i,
        {
            accounts.push((self.accounts[i].0, self.accounts[i].1.clone()));
            i += 1;
        }
        let mut contracts: Vec<(B256, Arc<Vec<u8>>)> = Vec::new();
        let mut j: usize = 0;
        while j < self.contracts.len()
            invariant
                j <= self.contracts.len(),
                contracts@ == self.contracts@.take(j as int),
            decreases self.contracts.len() - j,
        {
            contracts.push((self.contracts[j].0, self.contracts[j].1.clone()));
            j += 1;
        }
        let mut block_hashes: Vec<(u64, B256)> = Vec::new();
        let mut k: usize = 0;
        while k < self.block_hashes.len()
            invariant
                k <= self.block_hashes.len(),
                block_hashes@ == self.block_hashes@.take(k as int),
            decreases self.block_hashes.len() - k,
        {
            block_hashes.push((self.block_hashes[k].0, self.block_hashes[k].1));
            k += 1;
        }
        proof {
            assert(accounts@ == self.accounts@);
            assert(contracts@ == self.contracts@);
            assert(block_hashes@ == self.block_hashes@);
        }
        CachedReads { accounts, contracts, block_hashes }
    }
}

impl CachedReads {
    /// Puts an existing account into the cache, in place of an earlier one at the same address.
    pub fn insert_account(
        &mut self,
        address: Address,
        info: AccountInfo,
        storage: Vec<(U256, U256)>,
    )
        ensures
            final(self)@ == old(self)@.with_account(address, info, last_entries(storage@)),
    {
        let account = Arc::new(CachedAccount { info: Some(info), storage });
        self.accounts.push((address, account));
        proof {
            let view = |entry: (Address, Arc<CachedAccount>)| (entry.0, entry.1@);
            let entries = self.accounts@.map_values(view);
            assert(entries.drop_last() == old(self).accounts@.map_values(view));
            assert(entries.last() == (address, account@));
        }
    }

    /// The cache that a new canonical block leaves for builds on top of it.
    pub fn from_bundle(accounts: Vec<BundleAccount>) -> (reads: Self)
        ensures
            reads@ == reads_after(accounts@),
    {
        let mut reads = CachedReads::default();
        let mut i: usize = 0;
        while i < accounts.len()
            invariant
                i <= accounts.len(),
                reads@ == reads_after(accounts@.take(i as int)),
            decreases accounts.len() - i,
        {
            assert(accounts@.take(i + 1).drop_last() == accounts@.take(i as int));
            if let Some(info) = &accounts[i].info {
                let storage = present_values(&accounts[i].storage);
                reads.insert_account(accounts[i].address, info.clone(), storage);
            }
            i += 1;
        }
        assert(accounts@.take(i as int) == accounts@);
        reads
    }
}

/// The present value of each slot.
fn present_values(slots: &Vec<StorageSlot>) -> (storage: Vec<(U256, U256)>)
    ensures
        storage@ == slots@.map_values(|slot: StorageSlot| (slot.key, slot.present_value)),
{
    let mut storage: Vec<(U256, U256)> = Vec::new();
    let mut i: usize = 0;
    while i < slots.len()
        invariant
            i <= slots.len(),
            storage@ == slots@.take(i as int).map_values(
                |slot: StorageSlot| (slot.key, slot.present_value),
            ),
        decreases slots.len() - i,
    {
        storage.push((slots[i].key, slots[i].present_value));
        i += 1;
    }
    assert(slots@.take(i as int) == slots@);
    storage
}

} // verus!
