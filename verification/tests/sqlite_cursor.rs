use proof_helper::backfill::{BackfillJob, StorageTrieEntry};
use proof_helper::branch::BranchNodeCompact;
use proof_helper::cursor::{
    is_readable_row, CursorStep, LatestRow, SqlitePreimageStoreCursor,
};
use proof_helper::key::BranchNodeKey;
use proof_helper::live::{write_trie_updates, StorageTrieUpdates, TrieUpdates};
use proof_helper::primitives::{Nibbles, B256};
use proof_helper::sqlite::{SqlitePreimageStore, SqliteStep};
use proof_helper::storage::{
    ExternalStorageError, ExternalStorageResult, PreimageEntry, TrieBranchesBatch,
};
use proof_helper::write::{WriteRun, WriteStep};
use rusqlite::{Connection, OptionalExtension};

type Found = ExternalStorageResult<Option<(Nibbles, BranchNodeCompact)>>;

struct Store {
    conn: Connection,
}

struct Cursor<'a> {
    conn: &'a Connection,
    cursor: SqlitePreimageStoreCursor,
}

fn failed<T>(step: SqliteStep, outcome: Result<T, rusqlite::Error>) -> ExternalStorageResult<T> {
    SqlitePreimageStore::checked(step, outcome.map_err(|e| e.to_string()))
}

impl Store {
    fn insert(&self, row: &proof_helper::sqlite::BranchRow) {
        self.conn
            .execute(
                SqlitePreimageStore::INSERT_BRANCH,
                (&row.key, &row.hashed_address, &row.path, row.block_number, &row.branch),
            )
            .unwrap();
    }

    fn store_preimage(
        &self,
        block_number: u64,
        path: Nibbles,
        hashed_address: Option<B256>,
        branch: Option<BranchNodeCompact>,
    ) {
        let row = SqlitePreimageStore::store_preimage(block_number, path, hashed_address, branch)
            .unwrap();
        self.insert(&row);
    }

    fn store_preimages_batch(&self, batch: &TrieBranchesBatch) {
        for row in SqlitePreimageStore::store_preimages_batch(batch).unwrap() {
            self.insert(&row);
        }
    }

    fn cursor(&self, hashed_address: Option<B256>, max_block_number: u64) -> Cursor<'_> {
        Cursor {
            conn: &self.conn,
            cursor: SqlitePreimageStore::cursor(Ok(()), hashed_address, max_block_number).unwrap(),
        }
    }
}

impl Cursor<'_> {
    fn run(&mut self, first: CursorStep) -> Found {
        let mut step = first;
        loop {
            step = match step {
                CursorStep::Latest(lookup) => {
                    let row: LatestRow = failed(
                        SqliteStep::Lookup,
                        self.conn
                            .query_row(
                                SqlitePreimageStore::SELECT_LATEST,
                                (lookup.key(), lookup.max_block_number()),
                                |r| Ok((r.get(0)?, r.get(1)?)),
                            )
                            .optional(),
                    )?;
                    assert!(is_readable_row(&row));
                    self.cursor.answer_latest(lookup, row)
                }
                CursorStep::NextKey(lookup) => {
                    let row: Option<Vec<u8>> = failed(
                        SqliteStep::Lookup,
                        self.conn
                            .query_row(
                                SqlitePreimageStore::SELECT_NEXT_KEY,
                                (lookup.key(),),
                                |r| r.get(0),
                            )
                            .optional(),
                    )?;
                    if let Some(key) = &row {
                        assert!(BranchNodeKey::fits(key));
                    }
                    self.cursor.answer_next_key(row)
                }
                CursorStep::Finished(read) => return read,
            };
        }
    }

    fn seek_exact(&mut self, path: Nibbles) -> Found {
        let step = self.cursor.seek_exact(path);
        self.run(step)
    }

    fn seek(&mut self, path: Nibbles) -> Found {
        let step = self.cursor.seek(path);
        self.run(step)
    }

    fn next(&mut self) -> Found {
        let step = self.cursor.next();
        self.run(step)
    }

    fn current(&mut self) -> ExternalStorageResult<Option<Nibbles>> {
        self.cursor.current()
    }
}

fn nibbles_from(vec: Vec<u8>) -> Nibbles {
    Nibbles::from_nibbles_unchecked(&vec)
}

fn create_test_branch() -> BranchNodeCompact {
    BranchNodeCompact {
        state_mask: 0b11,
        tree_mask: 0,
        hash_mask: 0,
        hashes: vec![],
        root_hash: None,
    }
}

fn setup_test_store() -> Store {
    let conn = Connection::open_in_memory().unwrap();
    conn.execute_batch(SqlitePreimageStore::SCHEMA).unwrap();
    Store { conn }
}

#[test]
fn branch_node_key_roundtrip_no_address() {
    let path = nibbles_from(vec![1, 2, 3, 4, 5]);
    let key = BranchNodeKey { hashed_address: None, path: path.clone() }.encode();
    let BranchNodeKey { hashed_address: addr, path: decoded_path } =
        BranchNodeKey::decode(&key).unwrap();
    assert!(addr.is_none());
    assert_eq!(decoded_path, path);
}

#[test]
fn branch_node_key_roundtrip_with_address() {
    let path = nibbles_from((0..32).map(|i| (i % 16) as u8).collect());
    let addr = [0xAB; 32];
    let key = BranchNodeKey { hashed_address: Some(addr), path: path.clone() }.encode();
    let BranchNodeKey { hashed_address: addr2, path: decoded_path } =
        BranchNodeKey::decode(&key).unwrap();
    assert_eq!(addr2, Some(addr));
    assert_eq!(decoded_path, path);
}

// 1. Basic Cursor Operations

#[test]
fn test_cursor_empty_trie() {
    let store = setup_test_store();
    let mut cursor = store.cursor(None, 100);

    // All operations should return None on empty trie
    assert!(cursor.seek_exact(Nibbles::default()).unwrap().is_none());
    assert!(cursor.seek(Nibbles::default()).unwrap().is_none());
    assert!(cursor.next().unwrap().is_none());
    assert!(cursor.current().unwrap().is_none());
}

#[test]
fn test_cursor_single_entry() {
    let store = setup_test_store();
    let path = nibbles_from(vec![1, 2, 3]);
    let branch = create_test_branch();

    // Store single entry
    store.store_preimage(50, path.clone(), None, Some(branch.clone()));

    let mut cursor = store.cursor(None, 100);

    // Test seek_exact
    let result = cursor.seek_exact(path.clone()).unwrap().unwrap();
    assert_eq!(result.0, path);

    // Test current position
    assert_eq!(cursor.current().unwrap().unwrap(), path);

    // Test next from end should return None
    assert!(cursor.next().unwrap().is_none());
}

#[test]
fn test_cursor_multiple_entries() {
    let store = setup_test_store();
    let paths = vec![
        nibbles_from(vec![1]),
        nibbles_from(vec![1, 2]),
        nibbles_from(vec![2]),
        nibbles_from(vec![2, 3]),
    ];
    let branch = create_test_branch();

    // Store multiple entries
    for path in &paths {
        store.store_preimage(50, path.clone(), None, Some(branch.clone()));
    }

    let mut cursor = store.cursor(None, 100);

    // Test that we can iterate through all entries
    let mut found_paths = Vec::new();
    while let Some((path, _)) = cursor.next().unwrap() {
        found_paths.push(path);
    }

    assert_eq!(found_paths.len(), 4);
    // Paths should be in lexicographic order
    for i in 0..paths.len() {
        assert_eq!(found_paths[i], paths[i]);
    }
}

// 2. Seek Operations

#[test]
fn test_seek_exact_existing_path() {
    let store = setup_test_store();
    let path = nibbles_from(vec![1, 2, 3]);
    let branch = create_test_branch();

    store.store_preimage(50, path.clone(), None, Some(branch.clone()));

    let mut cursor = store.cursor(None, 100);
    let result = cursor.seek_exact(path.clone()).unwrap().unwrap();
    assert_eq!(result.0, path);
}

#[test]
fn test_seek_exact_non_existing_path() {
    let store = setup_test_store();
    let path = nibbles_from(vec![1, 2, 3]);
    let branch = create_test_branch();

    store.store_preimage(50, path.clone(), None, Some(branch.clone()));

    let mut cursor = store.cursor(None, 100);
    let non_existing = nibbles_from(vec![4, 5, 6]);
    assert!(cursor.seek_exact(non_existing).unwrap().is_none());
}

#[test]
fn test_seek_exact_empty_path() {
    let store = setup_test_store();
    let path = nibbles_from(vec![]);
    let branch = create_test_branch();

    store.store_preimage(50, path.clone(), None, Some(branch.clone()));

    let mut cursor = store.cursor(None, 100);
    let result = cursor.seek_exact(Nibbles::default()).unwrap().unwrap();
    assert_eq!(result.0, Nibbles::default());
}

#[test]
fn test_seek_to_existing_path() {
    let store = setup_test_store();
    let path = nibbles_from(vec![1, 2, 3]);
    let branch = create_test_branch();

    store.store_preimage(50, path.clone(), None, Some(branch.clone()));

    let mut cursor = store.cursor(None, 100);
    let result = cursor.seek(path.clone()).unwrap().unwrap();
    assert_eq!(result.0, path);
}

#[test]
fn test_seek_between_existing_nodes() {
    let store = setup_test_store();
    let path1 = nibbles_from(vec![1]);
    let path2 = nibbles_from(vec![3]);
    let branch = create_test_branch();

    store.store_preimage(50, path1.clone(), None, Some(branch.clone()));
    store.store_preimage(50, path2.clone(), None, Some(branch.clone()));

    let mut cursor = store.cursor(None, 100);
    // Seek to path between 1 and 3, should return path 3
    let seek_path = nibbles_from(vec![2]);
    let result = cursor.seek(seek_path).unwrap().unwrap();
    assert_eq!(result.0, path2);
}

#[test]
fn test_seek_after_all_nodes() {
    let store = setup_test_store();
    let path = nibbles_from(vec![1]);
    let branch = create_test_branch();

    store.store_preimage(50, path.clone(), None, Some(branch.clone()));

    let mut cursor = store.cursor(None, 100);
    // Seek to path after all nodes
    let seek_path = nibbles_from(vec![9]);
    assert!(cursor.seek(seek_path).unwrap().is_none());
}

#[test]
fn test_seek_before_all_nodes() {
    let store = setup_test_store();
    let path = nibbles_from(vec![5]);
    let branch = create_test_branch();

    store.store_preimage(50, path.clone(), None, Some(branch.clone()));

    let mut cursor = store.cursor(None, 100);
    // Seek to path before all nodes, should return first node
    let seek_path = nibbles_from(vec![1]);
    let result = cursor.seek(seek_path).unwrap().unwrap();
    assert_eq!(result.0, path);
}

// 3. Navigation Tests

#[test]
fn test_next_without_prior_seek() {
    let store = setup_test_store();
    let path = nibbles_from(vec![1, 2]);
    let branch = create_test_branch();

    store.store_preimage(50, path.clone(), None, Some(branch.clone()));

    let mut cursor = store.cursor(None, 100);
    // next() without prior seek should start from beginning
    let result = cursor.next().unwrap().unwrap();
    assert_eq!(result.0, path);
}

#[test]
fn test_next_after_seek() {
    let store = setup_test_store();
    let path1 = nibbles_from(vec![1]);
    let path2 = nibbles_from(vec![2]);
    let branch = create_test_branch();

    store.store_preimage(50, path1.clone(), None, Some(branch.clone()));
    store.store_preimage(50, path2.clone(), None, Some(branch.clone()));

    let mut cursor = store.cursor(None, 100);
    cursor.seek(path1).unwrap();

    // next() should return second node
    let result = cursor.next().unwrap().unwrap();
    assert_eq!(result.0, path2);
}

#[test]
fn test_next_at_end_of_trie() {
    let store = setup_test_store();
    let path = nibbles_from(vec![1]);
    let branch = create_test_branch();

    store.store_preimage(50, path.clone(), None, Some(branch.clone()));

    let mut cursor = store.cursor(None, 100);
    cursor.seek(path).unwrap();

    // next() at end should return None
    assert!(cursor.next().unwrap().is_none());
}

#[test]
fn test_multiple_consecutive_next() {
    let store = setup_test_store();
    let paths = vec![
        nibbles_from(vec![1]),
        nibbles_from(vec![2]),
        nibbles_from(vec![3]),
    ];
    let branch = create_test_branch();

    for path in &paths {
        store.store_preimage(50, path.clone(), None, Some(branch.clone()));
    }

    let mut cursor = store.cursor(None, 100);

    // Iterate through all with consecutive next() calls
    for expected_path in &paths {
        let result = cursor.next().unwrap().unwrap();
        assert_eq!(result.0, *expected_path);
    }

    // Final next() should return None
    assert!(cursor.next().unwrap().is_none());
}

#[test]
fn test_current_after_operations() {
    let store = setup_test_store();
    let path1 = nibbles_from(vec![1]);
    let path2 = nibbles_from(vec![2]);
    let branch = create_test_branch();

    store.store_preimage(50, path1.clone(), None, Some(branch.clone()));
    store.store_preimage(50, path2.clone(), None, Some(branch.clone()));

    let mut cursor = store.cursor(None, 100);

    // Current should be None initially
    assert!(cursor.current().unwrap().is_none());

    // After seek, current should track position
    cursor.seek(path1.clone()).unwrap();
    assert_eq!(cursor.current().unwrap().unwrap(), path1);

    // After next, current should update
    cursor.next().unwrap();
    assert_eq!(cursor.current().unwrap().unwrap(), path2);
}

#[test]
fn test_current_no_prior_operations() {
    let store = setup_test_store();
    let mut cursor = store.cursor(None, 100);

    // Current should be None when no operations performed
    assert!(cursor.current().unwrap().is_none());
}

// 4. Block Number Filtering

#[test]
fn test_same_path_different_blocks() {
    let store = setup_test_store();
    let path = nibbles_from(vec![1, 2]);
    let branch1 = create_test_branch();
    // Make branch2 different by setting different bits
    let branch2 = BranchNodeCompact {
        state_mask: 0b110_0000,
        tree_mask: 0,
        hash_mask: 0,
        hashes: vec![],
        root_hash: None,
    };

    // Store same path at different blocks
    store.store_preimage(50, path.clone(), None, Some(branch1.clone()));
    store.store_preimage(100, path.clone(), None, Some(branch2.clone()));

    // Cursor with max_block_number=75 should see only block 50 data
    let mut cursor75 = store.cursor(None, 75);
    let result75 = cursor75.seek_exact(path.clone()).unwrap().unwrap();
    assert_eq!(result75.0, path);
    assert_eq!(result75.1, branch1);

    // Cursor with max_block_number=150 should see block 100 data (latest)
    let mut cursor150 = store.cursor(None, 150);
    let result150 = cursor150.seek_exact(path.clone()).unwrap().unwrap();
    assert_eq!(result150.0, path);
    assert_eq!(result150.1, branch2);
}

#[test]
fn test_deleted_branch_nodes() {
    let store = setup_test_store();
    let path = nibbles_from(vec![1, 2]);
    let branch = create_test_branch();

    // Store branch node, then delete it (store None)
    store.store_preimage(50, path.clone(), None, Some(branch.clone()));
    store.store_preimage(100, path.clone(), None, None);

    // Cursor before deletion should see the node
    let mut cursor75 = store.cursor(None, 75);
    assert!(cursor75.seek_exact(path.clone()).unwrap().is_some());

    // Cursor after deletion should not see the node
    let mut cursor150 = store.cursor(None, 150);
    assert!(cursor150.seek_exact(path).unwrap().is_none());
}

// 5. Hashed Address Filtering

#[test]
fn test_account_specific_cursor() {
    let store = setup_test_store();
    let path = nibbles_from(vec![1, 2]);
    let addr1 = [0x01; 32];
    let addr2 = [0x02; 32];
    let branch = create_test_branch();

    // Store same path for different accounts
    store.store_preimage(50, path.clone(), Some(addr1), Some(branch.clone()));
    store.store_preimage(50, path.clone(), Some(addr2), Some(branch.clone()));

    // Cursor for addr1 should only see addr1 data
    let mut cursor1 = store.cursor(Some(addr1), 100);
    let result1 = cursor1.seek_exact(path.clone()).unwrap().unwrap();
    assert_eq!(result1.0, path);

    // Cursor for addr2 should only see addr2 data
    let mut cursor2 = store.cursor(Some(addr2), 100);
    let result2 = cursor2.seek_exact(path.clone()).unwrap().unwrap();
    assert_eq!(result2.0, path);

    // Cursor for addr1 should not see addr2 data when iterating
    let mut cursor1_iter = store.cursor(Some(addr1), 100);
    let mut found_count = 0;
    while cursor1_iter.next().unwrap().is_some() {
        found_count += 1;
    }
    assert_eq!(found_count, 1); // Should only see one entry (for addr1)
}

#[test]
fn test_state_trie_cursor() {
    let store = setup_test_store();
    let path = nibbles_from(vec![1, 2]);
    let addr = [0x01; 32];
    let branch = create_test_branch();

    // Store data for account trie and state trie
    store.store_preimage(50, path.clone(), Some(addr), Some(branch.clone()));
    store.store_preimage(50, path.clone(), None, Some(branch.clone()));

    // State trie cursor (None address) should only see state trie data
    let mut state_cursor = store.cursor(None, 100);
    let result = state_cursor.seek_exact(path.clone()).unwrap().unwrap();
    assert_eq!(result.0, path);

    // Verify state cursor doesn't see account data when iterating
    let mut state_cursor_iter = store.cursor(None, 100);
    let mut found_count = 0;
    let mut found_paths = Vec::new();
    while let Some((path, _)) = state_cursor_iter.next().unwrap() {
        found_count += 1;
        found_paths.push(path);
    }

    assert_eq!(found_count, 1); // Should only see state trie entry
    assert_eq!(found_paths, vec![path]);
}

#[test]
fn test_mixed_account_state_data() {
    let store = setup_test_store();
    let path1 = nibbles_from(vec![1]);
    let path2 = nibbles_from(vec![2]);
    let addr = [0x01; 32];
    let branch = create_test_branch();

    // Store mixed account and state trie data
    store.store_preimage(50, path1.clone(), Some(addr), Some(branch.clone()));
    store.store_preimage(50, path2.clone(), None, Some(branch.clone()));

    // Account cursor should only see account data
    let mut account_cursor = store.cursor(Some(addr), 100);
    let mut account_paths = Vec::new();
    while let Some((path, _)) = account_cursor.next().unwrap() {
        account_paths.push(path);
    }
    assert_eq!(account_paths.len(), 1);
    assert_eq!(account_paths[0], path1);

    // State cursor should only see state data
    let mut state_cursor = store.cursor(None, 100);
    let mut state_paths = Vec::new();
    while let Some((path, _)) = state_cursor.next().unwrap() {
        state_paths.push(path);
    }
    assert_eq!(state_paths.len(), 1);
    assert_eq!(state_paths[0], path2);
}

// 6. Path Ordering Tests

#[test]
fn test_lexicographic_ordering() {
    let store = setup_test_store();
    let paths = vec![
        nibbles_from(vec![3, 1]),
        nibbles_from(vec![1, 2]),
        nibbles_from(vec![2]),
        nibbles_from(vec![1]),
    ];
    let branch = create_test_branch();

    // Store paths in random order
    for path in &paths {
        store.store_preimage(50, path.clone(), None, Some(branch.clone()));
    }

    let mut cursor = store.cursor(None, 100);
    let mut found_paths = Vec::new();
    while let Some((path, _)) = cursor.next().unwrap() {
        found_paths.push(path);
    }

    // Should be returned in lexicographic order: [1], [1,2], [2], [3,1]
    let expected_order = vec![
        nibbles_from(vec![1]),
        nibbles_from(vec![1, 2]),
        nibbles_from(vec![2]),
        nibbles_from(vec![3, 1]),
    ];

    assert_eq!(found_paths, expected_order);
}

#[test]
fn test_path_prefix_scenarios() {
    let store = setup_test_store();
    let paths = vec![
        nibbles_from(vec![1]),       // Prefix of next
        nibbles_from(vec![1, 2]),    // Extends first
        nibbles_from(vec![1, 2, 3]), // Extends second
    ];
    let branch = create_test_branch();

    for path in &paths {
        store.store_preimage(50, path.clone(), None, Some(branch.clone()));
    }

    let mut cursor = store.cursor(None, 100);

    // Seek to prefix should find exact match
    let result = cursor.seek_exact(paths[0].clone()).unwrap().unwrap();
    assert_eq!(result.0, paths[0]);

    // Next should go to next path, not skip prefixed paths
    let result = cursor.next().unwrap().unwrap();
    assert_eq!(result.0, paths[1]);

    let result = cursor.next().unwrap().unwrap();
    assert_eq!(result.0, paths[2]);
}

#[test]
fn test_complex_nibble_combinations() {
    let store = setup_test_store();
    // Test various nibble patterns including edge values
    let paths = vec![
        nibbles_from(vec![0]),
        nibbles_from(vec![0, 15]),
        nibbles_from(vec![15]),
        nibbles_from(vec![15, 0]),
        nibbles_from(vec![7, 8, 9]),
    ];
    let branch = create_test_branch();

    for path in &paths {
        store.store_preimage(50, path.clone(), None, Some(branch.clone()));
    }

    let mut cursor = store.cursor(None, 100);
    let mut found_paths = Vec::new();
    while let Some((path, _)) = cursor.next().unwrap() {
        found_paths.push(path);
    }

    // All paths should be found and in correct order
    assert_eq!(found_paths.len(), 5);

    // Verify specific ordering for edge cases
    assert_eq!(found_paths[0], nibbles_from(vec![0]));
    assert_eq!(found_paths[1], nibbles_from(vec![0, 15]));
    assert_eq!(found_paths[4], nibbles_from(vec![15, 0]));
}

// 7. What the store promises

fn full_branch() -> BranchNodeCompact {
    BranchNodeCompact {
        state_mask: 0b1010_0000_0000_0111,
        tree_mask: 0b0000_0000_0000_0011,
        hash_mask: 0b1000_0000_0000_0010,
        hashes: vec![[0x11; 32], [0x22; 32]],
        root_hash: Some([0x33; 32]),
    }
}

#[test]
fn stored_branch_is_read_back_whole() {
    let store = setup_test_store();
    let path = nibbles_from(vec![0, 15, 7]);
    for branch in [
        full_branch(),
        BranchNodeCompact { root_hash: None, ..full_branch() },
        create_test_branch(),
    ] {
        store.store_preimage(7, path.clone(), Some([9; 32]), Some(branch.clone()));
        let found = store.cursor(Some([9; 32]), 7).seek_exact(path.clone()).unwrap();
        assert_eq!(found, Some((path.clone(), branch)));
    }
}

#[test]
fn storing_again_at_a_block_replaces() {
    let store = setup_test_store();
    let path = nibbles_from(vec![4]);
    store.store_preimage(7, path.clone(), None, Some(create_test_branch()));
    store.store_preimage(7, path.clone(), None, Some(full_branch()));
    let found = store.cursor(None, 7).seek(Nibbles::new()).unwrap();
    assert_eq!(found, Some((path.clone(), full_branch())));
    store.store_preimage(7, path.clone(), None, None);
    assert_eq!(store.cursor(None, 7).seek(Nibbles::new()).unwrap(), None);
}

#[test]
fn earlier_readers_and_other_paths_are_unaffected() {
    let store = setup_test_store();
    let a = nibbles_from(vec![4]);
    let b = nibbles_from(vec![4, 0]);
    store.store_preimage(10, a.clone(), None, Some(create_test_branch()));
    store.store_preimage(10, b.clone(), None, Some(create_test_branch()));
    store.store_preimage(20, a.clone(), None, Some(full_branch()));
    store.store_preimage(20, a.clone(), Some([1; 32]), Some(full_branch()));
    assert_eq!(store.cursor(None, 9).seek_exact(a.clone()).unwrap(), None);
    assert_eq!(
        store.cursor(None, 19).seek_exact(a.clone()).unwrap(),
        Some((a.clone(), create_test_branch()))
    );
    assert_eq!(
        store.cursor(None, 25).seek_exact(b.clone()).unwrap(),
        Some((b, create_test_branch()))
    );
    assert_eq!(store.cursor(None, 25).seek_exact(a.clone()).unwrap(), Some((a, full_branch())));
}

#[test]
fn walk_passes_over_deleted_and_later_branches() {
    let store = setup_test_store();
    let paths: Vec<Nibbles> = (0..6).map(|i| nibbles_from(vec![i])).collect();
    for path in &paths {
        store.store_preimage(1, path.clone(), None, Some(create_test_branch()));
    }
    store.store_preimage(2, paths[0].clone(), None, None);
    store.store_preimage(2, paths[3].clone(), None, None);
    store.store_preimage(9, nibbles_from(vec![1, 1]), None, Some(full_branch()));
    let mut cursor = store.cursor(None, 5);
    let mut found = Vec::new();
    while let Some((path, _)) = cursor.next().unwrap() {
        found.push(path);
    }
    assert_eq!(
        found,
        vec![paths[1].clone(), paths[2].clone(), paths[4].clone(), paths[5].clone()]
    );
    assert_eq!(cursor.current().unwrap(), Some(paths[5].clone()));
    assert_eq!(cursor.seek_exact(paths[0].clone()).unwrap(), None);
    assert_eq!(cursor.current().unwrap(), Some(paths[5].clone()));
}

#[test]
fn block_zero_is_seen_by_every_reader() {
    let store = setup_test_store();
    let path = nibbles_from(vec![2, 2]);
    store.store_preimage(0, path.clone(), None, Some(full_branch()));
    for block in [0, 1, 1 << 40, i64::MAX as u64, u64::MAX] {
        assert!(store.cursor(None, block).seek_exact(path.clone()).unwrap().is_some());
    }
}

#[test]
fn blocks_beyond_the_signed_range_are_kept_at_its_end() {
    let store = setup_test_store();
    let path = nibbles_from(vec![2, 2]);
    store.store_preimage(1 << 63, path.clone(), None, Some(full_branch()));
    assert!(store.cursor(None, i64::MAX as u64 - 1).seek_exact(path.clone()).unwrap().is_none());
    assert!(store.cursor(None, i64::MAX as u64).seek_exact(path.clone()).unwrap().is_some());
    assert!(store.cursor(None, u64::MAX).seek_exact(path).unwrap().is_some());
}

#[test]
fn batch_stores_items_in_order_at_its_block() {
    let store = setup_test_store();
    let p = nibbles_from(vec![8]);
    let item = |block_number, path: &Nibbles, branch| PreimageEntry {
        block_number,
        path: path.clone(),
        hashed_address: None,
        branch,
    };
    let mut batch = TrieBranchesBatch::new(60);
    batch.items.push(item(40, &p, Some(create_test_branch())));
    store.store_preimages_batch(&batch);
    assert_eq!(store.cursor(None, 50).seek_exact(p.clone()), Ok(None));
    assert_eq!(
        store.cursor(None, 60).seek_exact(p.clone()),
        Ok(Some((p.clone(), create_test_branch())))
    );
    // of two items for a path the later one stays
    let q = nibbles_from(vec![9]);
    let mut batch = TrieBranchesBatch::new(61);
    batch.items.push(item(61, &q, Some(create_test_branch())));
    batch.items.push(item(99, &q, Some(full_branch())));
    batch.items.push(item(61, &p, None));
    store.store_preimages_batch(&batch);
    assert_eq!(store.cursor(None, 60).seek_exact(q.clone()), Ok(None));
    assert_eq!(store.cursor(None, 61).seek_exact(q.clone()), Ok(Some((q, full_branch()))));
    assert_eq!(store.cursor(None, 61).seek_exact(p), Ok(None));
}

/// Stores rows step by step. The step with the number `failing` is failed.
fn write(store: &mut Store, run: WriteRun, failing: Option<usize>) -> ExternalStorageResult<()> {
    let mut run = run;
    let mut steps = 0;
    let mut tx = None;
    loop {
        let fail = failing == Some(steps);
        steps += 1;
        let outcome = match run.step() {
            _ if fail => Err("x".to_string()),
            WriteStep::Open => Ok(()),
            WriteStep::Begin => {
                tx = Some(store.conn.unchecked_transaction().unwrap());
                Ok(())
            }
            WriteStep::Insert(row) => {
                store.insert(row);
                Ok(())
            }
            WriteStep::Commit => {
                tx.take().unwrap().commit().unwrap();
                Ok(())
            }
            WriteStep::Done => return Ok(()),
        };
        run = run.answer(outcome)?;
    }
}

fn batch_run(batch: &TrieBranchesBatch) -> WriteRun {
    WriteRun::batch(SqlitePreimageStore::store_preimages_batch(batch).unwrap())
}

#[test]
fn failed_batch_leaves_the_store_as_it_was() {
    let mut store = setup_test_store();
    let path = nibbles_from(vec![5]);
    store.store_preimage(3, path.clone(), None, Some(create_test_branch()));
    let mut batch = TrieBranchesBatch::new(3);
    for nibbles in [vec![5], vec![6]] {
        batch.items.push(PreimageEntry {
            block_number: 3,
            path: nibbles_from(nibbles),
            hashed_address: None,
            branch: Some(full_branch()),
        });
    }
    let messages = [
        "Connection error: Failed to open sqlite: x",
        "Storage operation failed: Begin tx failed: x",
        "Batch operation failed: batch insert failed: x",
        "Batch operation failed: batch insert failed: x",
        "Batch operation failed: commit failed: x",
    ];
    for (failing, message) in messages.iter().enumerate() {
        let error = write(&mut store, batch_run(&batch), Some(failing)).unwrap_err();
        assert_eq!(error.message(), *message);
        let mut cursor = store.cursor(None, 3);
        assert_eq!(cursor.next().unwrap(), Some((path.clone(), create_test_branch())));
        assert_eq!(cursor.next().unwrap(), None);
    }
    write(&mut store, batch_run(&batch), None).unwrap();
    let mut cursor = store.cursor(None, 3);
    assert_eq!(cursor.next().unwrap(), Some((path, full_branch())));
    assert_eq!(cursor.next().unwrap(), Some((nibbles_from(vec![6]), full_branch())));
    assert_eq!(cursor.next().unwrap(), None);
}

#[test]
fn single_row_has_its_own_errors() {
    let mut store = setup_test_store();
    let path = nibbles_from(vec![5]);
    let run = || {
        WriteRun::one(
            SqlitePreimageStore::store_preimage(3, path.clone(), None, Some(full_branch()))
                .unwrap(),
        )
    };
    let messages = [
        "Connection error: Failed to open sqlite: x",
        "Storage operation failed: Begin tx failed: x",
        "Storage operation failed: insert failed: x",
        "Storage operation failed: commit failed: x",
    ];
    for (failing, message) in messages.iter().enumerate() {
        let error = write(&mut store, run(), Some(failing)).unwrap_err();
        assert_eq!(error.message(), *message);
        assert_eq!(store.cursor(None, 3).next().unwrap(), None);
    }
    write(&mut store, run(), None).unwrap();
    assert_eq!(store.cursor(None, 3).next().unwrap(), Some((path, full_branch())));
}

#[test]
fn batch_is_its_items_one_by_one() {
    let mut together = setup_test_store();
    let mut apart = setup_test_store();
    let mut batch = TrieBranchesBatch::new(3);
    for (nibbles, branch) in [
        (vec![5], Some(create_test_branch())),
        (vec![6], Some(create_test_branch())),
        (vec![5], None),
        (vec![6], Some(full_branch())),
    ] {
        let path = nibbles_from(nibbles);
        batch.items.push(PreimageEntry {
            block_number: 3,
            path: path.clone(),
            hashed_address: None,
            branch: branch.clone(),
        });
        let row = SqlitePreimageStore::store_preimage(3, path, None, branch).unwrap();
        write(&mut apart, WriteRun::one(row), None).unwrap();
    }
    write(&mut together, batch_run(&batch), None).unwrap();
    for store in [&together, &apart] {
        let mut cursor = store.cursor(None, 3);
        assert_eq!(cursor.next().unwrap(), Some((nibbles_from(vec![6]), full_branch())));
        assert_eq!(cursor.next().unwrap(), None);
    }
}

#[test]
fn failed_lookup_leaves_the_cursor_where_it_is() {
    let store = setup_test_store();
    let paths = [nibbles_from(vec![1]), nibbles_from(vec![2])];
    for path in &paths {
        store.store_preimage(5, path.clone(), None, Some(create_test_branch()));
    }
    let mut cursor = store.cursor(None, 5);
    assert_eq!(cursor.next().unwrap(), Some((paths[0].clone(), create_test_branch())));
    let CursorStep::NextKey(_) = cursor.cursor.next() else { panic!() };
    let CursorStep::Finished(read) = cursor.cursor.lookup_failed("x".to_string()) else { panic!() };
    assert_eq!(read, Err(ExternalStorageError::StorageError("x".to_string())));
    assert_eq!(cursor.current().unwrap(), Some(paths[0].clone()));
    assert_eq!(cursor.next().unwrap(), Some((paths[1].clone(), create_test_branch())));
}

#[test]
fn latest_block_is_the_greatest_one() {
    let store = setup_test_store();
    let latest = |earliest: Option<u64>| {
        let greatest = store
            .conn
            .query_row(SqlitePreimageStore::SELECT_GREATEST_BLOCK, (), |r| r.get(0))
            .unwrap();
        SqlitePreimageStore::get_latest_block_number(&earliest.map(|n| (n, [0; 32])), greatest)
    };
    assert_eq!(latest(None), None);
    assert_eq!(latest(Some(8)), Some(8));
    store.store_preimage(0, nibbles_from(vec![1]), None, Some(create_test_branch()));
    assert_eq!(latest(Some(8)), Some(8));
    store.store_preimage(9, nibbles_from(vec![1]), None, Some(create_test_branch()));
    store.store_preimage(7, nibbles_from(vec![2]), None, Some(create_test_branch()));
    assert_eq!(latest(Some(8)), Some(9));
    assert_eq!(latest(Some(10)), Some(10));
    assert_eq!(latest(None), None);
    let first = Some((u64::MAX, [0; 32]));
    assert_eq!(SqlitePreimageStore::get_latest_block_number(&first, Some(-1)), Some(u64::MAX));
}

#[test]
fn keys_are_ordered_by_trie_and_path() {
    let key = |address: Option<B256>, path: Vec<u8>| {
        BranchNodeKey { hashed_address: address, path: nibbles_from(path) }.encode()
    };
    assert_eq!(key(None, vec![1, 15]), vec![1, 1, 15]);
    assert_eq!(key(Some([7; 32]), vec![3]).len(), 34);
    let mut keys = vec![
        key(None, vec![]),
        key(Some([2; 32]), vec![0]),
        key(Some([1; 32]), vec![15, 15]),
        key(Some([1; 32]), vec![15]),
    ];
    keys.sort();
    assert_eq!(
        keys,
        vec![
            key(Some([1; 32]), vec![15]),
            key(Some([1; 32]), vec![15, 15]),
            key(Some([2; 32]), vec![0]),
            key(None, vec![]),
        ]
    );
}

#[test]
fn bad_keys_are_refused() {
    let refused = |bytes: &[u8]| match BranchNodeKey::decode(bytes) {
        Err(ExternalStorageError::StorageError(text)) => text,
        other => panic!("{:?}", other),
    };
    assert_eq!(refused(&[]), "key too short");
    assert_eq!(refused(&[0; 32]), "account trie key too short");
    assert_eq!(refused(&[200, 1]), "invalid key prefix: 200");
    assert!(!BranchNodeKey::fits(&[1; 66]));
    assert!(BranchNodeKey::fits(&[1; 65]));
    assert!(!BranchNodeKey::fits(&[0; 98]));
    assert!(BranchNodeKey::fits(&[0; 97]));
}

#[test]
fn bad_rows_end_a_search_with_their_error() {
    let mut cursor = SqlitePreimageStoreCursor::new(None, 5);
    let lookup = match cursor.seek_exact(nibbles_from(vec![1])) {
        CursorStep::Latest(lookup) => lookup,
        other => panic!("{:?}", other),
    };
    assert_eq!(lookup.key(), &[1, 1][..]);
    assert_eq!(lookup.max_block_number(), 5);
    let row = Some((vec![9, 9], vec![1]));
    assert!(is_readable_row(&row));
    match cursor.answer_latest(lookup, row) {
        CursorStep::Finished(Err(error)) => {
            assert_eq!(error.message(), "Storage operation failed: invalid key prefix: 9")
        }
        other => panic!("{:?}", other),
    }
    assert_eq!(cursor.current().unwrap(), None);
    assert!(!is_readable_row(&Some((vec![1], vec![1]))));
    assert!(is_readable_row(&Some((vec![1], vec![]))));
    match cursor.answer_next_key(Some(vec![])) {
        CursorStep::Finished(Err(error)) => {
            assert_eq!(error, ExternalStorageError::StorageError("key too short".to_string()))
        }
        other => panic!("{:?}", other),
    }
}

#[test]
fn earliest_block_is_read_back() {
    let store = setup_test_store();
    let read = || {
        let row: Option<(i64, Vec<u8>)> = store
            .conn
            .query_row(SqlitePreimageStore::SELECT_EARLIEST, (), |r| Ok((r.get(0)?, r.get(1)?)))
            .optional()
            .unwrap();
        SqlitePreimageStore::get_earliest_block_number(&row)
    };
    assert_eq!(read(), None);
    for (number, hash) in [(5, [1; 32]), (u64::MAX, [2; 32])] {
        let row = SqlitePreimageStore::set_earliest_block_number(number, &hash);
        store.conn.execute(SqlitePreimageStore::UPSERT_EARLIEST, row).unwrap();
        assert_eq!(read(), Some((number, hash)));
    }
    let mut padded = [0; 32];
    padded[0] = 7;
    assert_eq!(
        SqlitePreimageStore::get_earliest_block_number(&Some((3, vec![7]))),
        Some((3, padded))
    );
    assert_eq!(
        SqlitePreimageStore::get_earliest_block_number(&Some((3, vec![7; 40]))),
        Some((3, [7; 32]))
    );
}

#[test]
fn store_needs_its_tables() {
    let store =
        SqlitePreimageStore::new("a.db".to_string(), SqlitePreimageStore::ensure_schema(Ok(()), Ok(())))
            .unwrap();
    assert_eq!(store.db_path(), "a.db");
    assert_eq!(
        SqlitePreimageStore::new(
            "a.db".to_string(),
            SqlitePreimageStore::ensure_schema(Err("no".to_string()), Ok(()))
        ),
        Err(ExternalStorageError::ConnectionError("Failed to open sqlite: no".to_string()))
    );
    assert_eq!(
        SqlitePreimageStore::ensure_schema(Ok(()), Err("bad".to_string())),
        Err(ExternalStorageError::TableCreationError("Failed to create schema: bad".to_string()))
    );
    assert_eq!(
        SqlitePreimageStore::cursor(Err("no".to_string()), None, 1).err(),
        Some(ExternalStorageError::ConnectionError("Failed to open sqlite: no".to_string()))
    );
}

#[test]
fn database_failures_have_their_errors() {
    let error = |step| {
        SqlitePreimageStore::checked::<()>(step, Err("x".to_string())).unwrap_err().message()
    };
    assert_eq!(error(SqliteStep::Open), "Connection error: Failed to open sqlite: x");
    assert_eq!(error(SqliteStep::Schema), "Table creation error: Failed to create schema: x");
    assert_eq!(error(SqliteStep::Begin), "Storage operation failed: Begin tx failed: x");
    assert_eq!(error(SqliteStep::Insert), "Storage operation failed: insert failed: x");
    assert_eq!(error(SqliteStep::Commit), "Storage operation failed: commit failed: x");
    assert_eq!(error(SqliteStep::BatchInsert), "Batch operation failed: batch insert failed: x");
    assert_eq!(error(SqliteStep::BatchCommit), "Batch operation failed: commit failed: x");
    assert_eq!(error(SqliteStep::Lookup), "Storage operation failed: x");
    assert_eq!(error(SqliteStep::ReadEarliest), "Storage operation failed: query failed: x");
    assert_eq!(
        error(SqliteStep::WriteEarliest),
        "Storage operation failed: upsert earliest_block failed: x"
    );
    assert_eq!(
        SqlitePreimageStore::health_check(Err("x".to_string())).unwrap_err().message(),
        "Connection error: sqlite healthcheck failed: x"
    );
    assert!(SqlitePreimageStore::health_check(Ok(1)).is_ok());
    let mut cursor = setup_test_store();
    cursor.conn.execute_batch("DROP TABLE branch_nodes").unwrap();
    let failed = Store { conn: std::mem::replace(&mut cursor.conn, Connection::open_in_memory().unwrap()) };
    assert!(matches!(
        failed.cursor(None, 1).next(),
        Err(ExternalStorageError::StorageError(_))
    ));
}

#[test]
fn block_updates_are_read_back() {
    let store = setup_test_store();
    let address = [6; 32];
    for (hashed_address, path) in
        [(None, vec![1]), (None, vec![2]), (Some(address), vec![1]), (Some(address), vec![2])]
    {
        store.store_preimage(10, nibbles_from(path), hashed_address, Some(create_test_branch()));
    }
    let changes = || (vec![(nibbles_from(vec![2]), full_branch())], vec![nibbles_from(vec![1])]);
    let (account_nodes, removed_nodes) = changes();
    let (storage_nodes, storage_removed) = changes();
    let updates = TrieUpdates {
        account_nodes,
        removed_nodes,
        storage_tries: vec![(
            address,
            StorageTrieUpdates { is_deleted: false, storage_nodes, removed_nodes: storage_removed },
        )],
    };
    let writes = write_trie_updates(&updates, 11);
    store.store_preimages_batch(&writes.account_branches);
    store.store_preimages_batch(&writes.storage_branches);
    for hashed_address in [None, Some(address)] {
        let mut before = store.cursor(hashed_address, 10);
        for path in [vec![1], vec![2]] {
            let path = nibbles_from(path);
            assert_eq!(before.next().unwrap(), Some((path, create_test_branch())));
        }
        assert_eq!(before.next().unwrap(), None);
        let mut after = store.cursor(hashed_address, 11);
        assert_eq!(after.next().unwrap(), Some((nibbles_from(vec![2]), full_branch())));
        assert_eq!(after.next().unwrap(), None);
    }
}

#[test]
fn backfilled_branches_are_read_at_every_block() {
    let store = setup_test_store();
    let job = BackfillJob::new((), &());
    let path = nibbles_from(vec![3, 4]);
    store.store_preimages_batch(
        &job.backfill_accounts_trie(&vec![(path.clone(), create_test_branch())]),
    );
    store.store_preimages_batch(&job.backfill_storages_trie(&vec![(
        [1; 32],
        StorageTrieEntry { nibbles: path.clone(), node: full_branch() },
    )]));
    for block in [0, 77, u64::MAX] {
        assert_eq!(
            store.cursor(None, block).next().unwrap(),
            Some((path.clone(), create_test_branch()))
        );
        assert_eq!(
            store.cursor(Some([1; 32]), block).next().unwrap(),
            Some((path.clone(), full_branch()))
        );
    }
}
