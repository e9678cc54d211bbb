use proof_helper::branch::BranchNodeCompact;
use proof_helper::primitives::{Nibbles, B256, U256};
use proof_helper::proofs::{
    ExternalHashedAccountCursor, ExternalHashedAccountCursorFactory, ExternalHashedStorageCursor,
    ExternalTrieCursor, ExternalTrieCursorFactory,
};
use proof_helper::provider::ExternalOverlayStateProviderRef;
use proof_helper::rpc::{known_block, requested_block, storage_keys, EthApiExt, JsonStorageKey};
use proof_helper::storage::{
    Account, DatabaseError, ExternalHashedCursor, ExternalStateStore, ExternalStorageError,
    ExternalStorageResult, PreimageEntry, StorageEntry, TrieBranchesBatch,
};
use proof_helper::storage::ExternalTrieCursor as TrieCursor;

#[derive(Debug, Clone, PartialEq)]
struct Fixed {
    hashed_address: Option<B256>,
    block_number: u64,
    fail: bool,
}

impl Fixed {
    fn answer<T>(&self, value: T) -> ExternalStorageResult<T> {
        if self.fail {
            Err(ExternalStorageError::StorageError("x".to_string()))
        } else {
            Ok(value)
        }
    }
}

fn branch() -> BranchNodeCompact {
    BranchNodeCompact { state_mask: 1, tree_mask: 0, hash_mask: 0, hashes: vec![], root_hash: None }
}

impl TrieCursor for Fixed {
    fn seek_exact(
        &mut self,
        path: Nibbles,
    ) -> ExternalStorageResult<Option<(Nibbles, BranchNodeCompact)>> {
        self.answer(Some((path, branch())))
    }

    fn seek(
        &mut self,
        _path: Nibbles,
    ) -> ExternalStorageResult<Option<(Nibbles, BranchNodeCompact)>> {
        self.answer(None)
    }

    fn next(&mut self) -> ExternalStorageResult<Option<(Nibbles, BranchNodeCompact)>> {
        self.block_number += 1;
        self.answer(None)
    }

    fn current(&mut self) -> ExternalStorageResult<Option<Nibbles>> {
        self.answer(Some(Nibbles::new()))
    }
}

/// Leaves in the order of their keys, the key at which the cursor is, and whether reading fails.
#[derive(Debug, Clone, PartialEq)]
struct Leaves<V> {
    leaves: Vec<(B256, V)>,
    at: Option<B256>,
    fail: bool,
}

impl<V: Copy> Leaves<V> {
    fn new(leaves: Vec<(B256, V)>) -> Self {
        Leaves { leaves, at: None, fail: false }
    }

    fn read(&mut self, found: Option<(B256, V)>) -> ExternalStorageResult<Option<(B256, V)>> {
        if self.fail {
            return Err(ExternalStorageError::ConnectionError("y".to_string()));
        }
        self.at = found.map(|leaf| leaf.0).or(self.at);
        Ok(found)
    }
}

impl<V: Copy> ExternalHashedCursor for Leaves<V> {
    type Value = V;

    fn seek(&mut self, key: B256) -> ExternalStorageResult<Option<(B256, V)>> {
        let found = self.leaves.iter().find(|leaf| leaf.0 >= key).copied();
        self.read(found)
    }

    fn next(&mut self) -> ExternalStorageResult<Option<(B256, V)>> {
        let found = self.leaves.iter().find(|leaf| Some(leaf.0) > self.at).copied();
        self.read(found)
    }

    fn is_storage_empty(&mut self) -> ExternalStorageResult<bool> {
        if self.fail {
            return Err(ExternalStorageError::ConnectionError("y".to_string()));
        }
        Ok(self.leaves.is_empty())
    }
}

const ACCOUNT: Account = Account { nonce: 1, balance: [0; 32], bytecode_hash: None };

#[derive(Debug, Clone)]
struct Store {
    fail: bool,
}

impl ExternalStateStore for Store {
    type TrieCursor = Fixed;
    type StorageCursor = Leaves<U256>;
    type AccountHashedCursor = Leaves<Account>;

    fn store_trie_branch(
        &self,
        _block_number: u64,
        _path: Nibbles,
        _hashed_address: Option<B256>,
        _branch: Option<BranchNodeCompact>,
    ) -> ExternalStorageResult<()> {
        Ok(())
    }

    fn store_trie_branches(&self, _batch: TrieBranchesBatch) -> ExternalStorageResult<()> {
        Ok(())
    }

    fn store_hashed_accounts(
        &self,
        _accounts: Vec<(B256, Option<Account>)>,
        _block_number: u64,
    ) -> ExternalStorageResult<()> {
        Ok(())
    }

    fn store_hashed_storages(
        &self,
        _storages: Vec<(B256, StorageEntry)>,
        _block_number: u64,
    ) -> ExternalStorageResult<()> {
        Ok(())
    }

    fn get_earliest_block_number(&self) -> ExternalStorageResult<Option<(u64, B256)>> {
        Ok(None)
    }

    fn set_earliest_block_number(&self, _block_number: u64, _hash: B256) -> ExternalStorageResult<()> {
        Ok(())
    }

    fn health_check(&self) -> ExternalStorageResult<()> {
        Ok(())
    }

    fn trie_cursor(
        &self,
        hashed_address: Option<B256>,
        block_number: u64,
    ) -> ExternalStorageResult<Fixed> {
        Fixed { hashed_address, block_number, fail: self.fail }
            .answer(Fixed { hashed_address, block_number, fail: false })
    }

    fn storage_hashed_cursor(
        &self,
        hashed_address: B256,
        _block_number: u64,
    ) -> ExternalStorageResult<Leaves<U256>> {
        Fixed { hashed_address: None, block_number: 0, fail: self.fail }
            .answer(Leaves::new(vec![(hashed_address, [1; 32])]))
    }

    fn account_hashed_cursor(&self, _block_number: u64) -> ExternalStorageResult<Leaves<Account>> {
        Fixed { hashed_address: None, block_number: 0, fail: self.fail }
            .answer(Leaves::new(vec![([6; 32], ACCOUNT)]))
    }
}

fn failed() -> DatabaseError {
    DatabaseError::Other("Storage operation failed: x".to_string())
}

#[test]
fn trie_cursor_hands_on() {
    let path = Nibbles::from_nibbles_unchecked(&[1]);
    let fixed = |fail| ExternalTrieCursor::new(Fixed { hashed_address: None, block_number: 5, fail });
    let mut cursor = fixed(false);
    assert_eq!(cursor.seek_exact(path.clone()), Ok(Some((path.clone(), branch()))));
    assert_eq!(cursor.seek(path.clone()), Ok(None));
    assert_eq!(cursor.next(), Ok(None));
    assert_eq!(cursor.0.block_number, 6);
    assert_eq!(cursor.current(), Ok(Some(Nibbles::new())));
    let mut cursor = fixed(true);
    assert_eq!(cursor.seek_exact(path.clone()), Err(failed()));
    assert_eq!(cursor.seek(path), Err(failed()));
    assert_eq!(cursor.next(), Err(failed()));
    assert_eq!(cursor.current(), Err(failed()));
}

#[test]
fn leaf_cursors_hand_on() {
    let leaves = vec![([2; 32], ACCOUNT), ([4; 32], ACCOUNT)];
    let mut accounts = ExternalHashedAccountCursor::new(Leaves::new(leaves.clone()));
    assert_eq!(accounts.seek([3; 32]), Ok(Some(leaves[1])));
    assert_eq!(accounts.next(), Ok(None));
    let failing = Leaves { leaves: vec![([2; 32], [0; 32])], at: None, fail: true };
    let mut slots = ExternalHashedStorageCursor::new(failing);
    let error = DatabaseError::Other("Connection error: y".to_string());
    assert_eq!(slots.seek([2; 32]).unwrap_err(), error);
    assert_eq!(slots.next().unwrap_err(), error);
    assert_eq!(slots.is_storage_empty().unwrap_err(), error);
}

#[test]
fn leaf_cursor_seeks_the_first_at_or_after_a_key() {
    let leaves = vec![([2; 32], [1; 32]), ([4; 32], [0; 32]), ([7; 32], [3; 32])];
    let mut cursor = ExternalHashedStorageCursor::new(Leaves::new(leaves.clone()));
    assert_eq!(cursor.seek([2; 32]), Ok(Some(leaves[0])));
    assert_eq!(cursor.next(), Ok(Some(leaves[1])));
    assert_eq!(cursor.seek([1; 32]), Ok(Some(leaves[0])));
    assert_eq!(cursor.seek([5; 32]), Ok(Some(leaves[2])));
    assert_eq!(cursor.next(), Ok(None));
    assert_eq!(cursor.seek([8; 32]), Ok(None));
    assert_eq!(cursor.is_storage_empty(), Ok(false));
    let mut empty: ExternalHashedStorageCursor<Leaves<U256>> =
        ExternalHashedStorageCursor::new(Leaves::new(vec![]));
    assert_eq!(empty.is_storage_empty(), Ok(true));
}

#[test]
fn factories_ask_the_store_for_their_block() {
    let tries = ExternalTrieCursorFactory::new(Store { fail: false }, 9);
    let state = tries.account_trie_cursor().unwrap();
    assert_eq!((state.0.hashed_address, state.0.block_number), (None, 9));
    let storage = tries.storage_trie_cursor([4; 32]).unwrap();
    assert_eq!((storage.0.hashed_address, storage.0.block_number), (Some([4; 32]), 9));
    let leaves = ExternalHashedAccountCursorFactory::new(Store { fail: false }, 9);
    let accounts = leaves.hashed_account_cursor().unwrap();
    assert_eq!(accounts.0, Leaves::new(vec![([6; 32], ACCOUNT)]));
    let slots = leaves.hashed_storage_cursor([5; 32]).unwrap();
    assert_eq!(slots.0, Leaves::new(vec![([5; 32], [1; 32])]));
    let tries = ExternalTrieCursorFactory::new(Store { fail: true }, 9);
    assert_eq!(tries.account_trie_cursor().err(), Some(failed()));
    assert_eq!(tries.storage_trie_cursor([4; 32]).err(), Some(failed()));
    let leaves = ExternalHashedAccountCursorFactory::new(Store { fail: true }, 9);
    assert_eq!(leaves.hashed_account_cursor().err(), Some(failed()));
    assert_eq!(leaves.hashed_storage_cursor([5; 32]).err(), Some(failed()));
}

#[test]
fn requests_name_blocks_and_keys() {
    assert_eq!(requested_block(Some(4), 9), 4);
    assert_eq!(requested_block(None, 9), 9);
    assert_eq!(known_block("latest", Some(12)), Ok(12));
    assert_eq!(known_block("latest", None), Err("latest"));
    let mut one = [0; 32];
    one[31] = 1;
    assert_eq!(
        storage_keys(&vec![JsonStorageKey::Hash([7; 32]), JsonStorageKey::Number(one)]),
        vec![[7; 32], one]
    );
}

#[test]
fn holders_keep_what_they_are_given() {
    let api = EthApiExt::new(1, "store", 'p');
    assert_eq!((api.eth_api, api.preimage_store, api.provider), (1, "store", 'p'));
    let provider = ExternalOverlayStateProviderRef::new(1, "store", 'p', 7);
    assert_eq!(
        (provider.historical, provider.storage, provider.provider, provider.block_number),
        (1, "store", 'p', 7)
    );
    let batch = TrieBranchesBatch::new(6);
    assert_eq!(batch.block_number, 6);
    assert_eq!(batch.items, Vec::<PreimageEntry>::new());
}
