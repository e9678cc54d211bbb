use proof_helper::branch::BranchNodeCompact;
use proof_helper::helper::{
    block_not_found, ChainNotification, HelperRun, ProofHelper, RunError, RunEvent, RunStep,
};
use proof_helper::live::{
    account_trie_batch, storage_tries_batch, write_leaf_updates, write_trie_updates, BlockWrite,
    BlockWriteRun, BlockWrites, HashedPostState, HashedStorage, LiveTrieCollector,
    StorageTrieUpdates, TrieUpdates,
};
use proof_helper::primitives::Nibbles;
use proof_helper::storage::{Account, StorageEntry};

fn path(nibbles: &[u8]) -> Nibbles {
    Nibbles::from_nibbles_unchecked(nibbles)
}

fn branch(state_mask: u16) -> BranchNodeCompact {
    BranchNodeCompact { state_mask, tree_mask: 0, hash_mask: 0, hashes: vec![], root_hash: None }
}

fn updates() -> TrieUpdates {
    TrieUpdates {
        account_nodes: vec![
            (path(&[5]), branch(1)),
            (path(&[]), branch(2)),
            (path(&[1, 2]), branch(3)),
        ],
        removed_nodes: vec![path(&[9]), path(&[5]), path(&[]), path(&[1])],
        storage_tries: vec![],
    }
}

fn storage_updates() -> StorageTrieUpdates {
    StorageTrieUpdates {
        is_deleted: false,
        storage_nodes: vec![(path(&[3]), branch(4)), (path(&[]), branch(5)), (path(&[2]), branch(6))],
        removed_nodes: vec![path(&[7]), path(&[3]), path(&[])],
    }
}

fn collector() -> LiveTrieCollector<(), (), ()> {
    LiveTrieCollector::new((), (), ())
}

#[test]
fn account_updates_are_merged_and_sorted() {
    let batch = account_trie_batch(&updates(), 8);
    assert_eq!(batch.block_number, 8);
    let items: Vec<_> =
        batch.items.iter().map(|e| (e.path.to_vec(), e.branch.clone())).collect();
    // the new value of [5] takes precedence over its removal, and so does that of the root,
    // which is then left out
    assert_eq!(
        items,
        vec![
            (vec![1], None),
            (vec![1, 2], Some(branch(3))),
            (vec![5], Some(branch(1))),
            (vec![9], None),
        ]
    );
    assert!(batch.items.iter().all(|e| e.block_number == 8 && e.hashed_address.is_none()));
}

#[test]
fn removal_of_the_root_is_stored() {
    let updates = TrieUpdates {
        account_nodes: vec![],
        removed_nodes: vec![path(&[1]), path(&[])],
        storage_tries: vec![],
    };
    let batch = account_trie_batch(&updates, 8);
    let paths: Vec<_> = batch.items.iter().map(|e| e.path.to_vec()).collect();
    assert_eq!(paths, vec![vec![], vec![1]]);
}

#[test]
fn storage_updates_are_merged_in_order() {
    let tries = vec![([1; 32], storage_updates()), ([2; 32], storage_updates())];
    let batch = storage_tries_batch(&tries, 9);
    let items: Vec<_> = batch
        .items
        .iter()
        .map(|e| (e.hashed_address, e.path.to_vec(), e.branch.clone()))
        .collect();
    let mut expected = Vec::new();
    for address in [[1; 32], [2; 32]] {
        expected.push((Some(address), vec![7], None));
        expected.push((Some(address), vec![3], Some(branch(4))));
        expected.push((Some(address), vec![2], Some(branch(6))));
    }
    assert_eq!(items, expected);
    assert!(batch.items.iter().all(|e| e.block_number == 9));
}

#[test]
fn trie_entries_are_counted() {
    let mut updates = updates();
    updates.storage_tries = vec![([1; 32], storage_updates())];
    let writes = write_trie_updates(&updates, 8);
    assert_eq!(writes.account_branches.items.len(), 4);
    assert_eq!(writes.storage_branches.items.len(), 3);
    assert_eq!(writes.num_entries, 7);
}

fn post_state() -> HashedPostState {
    let account = Account { nonce: 1, balance: [0; 32], bytecode_hash: None };
    HashedPostState {
        accounts: vec![([1; 32], Some(account)), ([2; 32], None)],
        storages: vec![
            (
                [3; 32],
                HashedStorage { wiped: false, storage: vec![([4; 32], [5; 32]), ([6; 32], [0; 32])] },
            ),
            ([7; 32], HashedStorage { wiped: true, storage: vec![] }),
        ],
    }
}

#[test]
fn leaves_are_written_with_their_addresses() {
    let writes = write_leaf_updates(post_state(), 12);
    assert_eq!(writes.block_number, 12);
    assert_eq!(writes.accounts, post_state().accounts);
    assert_eq!(
        writes.storages,
        vec![
            vec![
                ([3; 32], StorageEntry { key: [4; 32], value: [5; 32] }),
                ([3; 32], StorageEntry { key: [6; 32], value: [0; 32] }),
            ],
            vec![],
        ]
    );
    assert_eq!(writes.num_entries, 4);
}

#[test]
fn block_needs_its_parent() {
    let collector = collector();
    let start = |earliest: Option<u64>, latest: Option<u64>, block| {
        collector.execute_and_store_block_updates(&earliest.map(|n| (n, [0; 32])), &latest, block)
    };
    assert_eq!(start(None, Some(5), 6), Err("No blocks stored".to_string()));
    assert_eq!(start(Some(5), None, 6), Err("No blocks stored".to_string()));
    assert_eq!(
        start(Some(5), Some(9), 5),
        Err("Parent block number is less than earliest stored block number".to_string())
    );
    assert_eq!(
        start(Some(5), Some(9), 11),
        Err(
            "Cannot execute block updates for block 11 without parent state 10 (latest stored block number: 9)"
                .to_string()
        )
    );
    for block in [6, 8, 10] {
        assert_eq!(start(Some(5), Some(9), block).unwrap().parent_block_number(), block - 1);
    }
}

#[test]
fn block_must_lead_to_its_state() {
    let pending = |n| {
        collector().execute_and_store_block_updates(&Some((0, [0; 32])), &Some(99), n).unwrap()
    };
    let writes = pending(8).finish(&[1; 32], &[1; 32], &updates(), post_state()).unwrap();
    assert_eq!(writes.trie, write_trie_updates(&updates(), 8));
    assert_eq!(writes.leaves, write_leaf_updates(post_state(), 8));
    assert_eq!(writes.leaves.block_number, 8);
    let error = pending(8).finish(&[1; 32], &[2; 32], &updates(), post_state()).unwrap_err();
    assert_eq!(
        error,
        format!(
            "State root mismatch for block 8 (have: 0x{}, expected: 0x{})",
            "01".repeat(32),
            "02".repeat(32)
        )
    );
}

#[test]
fn missing_blocks_are_processed_in_order() {
    let helper = ProofHelper::new((), ());
    assert_eq!(helper.run(5, 8), Some((6, 8)));
    assert_eq!(helper.run(8, 8), None);
    assert_eq!(helper.run(9, 8), None);
    assert_eq!(block_not_found(7), "Block 7 not found");
}

#[test]
fn notifications_are_planned() {
    let helper = ProofHelper::new((), ());
    let committed = ChainNotification::Committed { tip_number: 8, tip_hash: [4; 32] };
    let plan = helper.on_notification(&committed, 5);
    assert_eq!(plan.blocks, Some((6, 8)));
    assert_eq!(plan.finished, Some((8, [4; 32])));
    for stored in [8, 9] {
        let plan = helper.on_notification(&committed, stored);
        assert_eq!(plan.blocks, None);
        assert_eq!(plan.finished, None);
    }
    let other = ChainNotification::Other { committed_tip: Some((7, [1; 32])) };
    let plan = helper.on_notification(&other, 5);
    assert_eq!(plan.blocks, None);
    assert_eq!(plan.finished, Some((7, [1; 32])));
    let reverted = ChainNotification::Other { committed_tip: None };
    assert_eq!(helper.on_notification(&reverted, 5).finished, None);
}

#[test]
fn catching_up_never_lacks_a_parent() {
    let helper = ProofHelper::new((), ());
    let mut latest = 5;
    let (first, last) = helper.run(latest, 12).unwrap();
    for block in first..=last {
        let pending = collector()
            .execute_and_store_block_updates(&Some((5, [0; 32])), &Some(latest), block)
            .unwrap();
        assert_eq!(pending.parent_block_number(), latest);
        latest = block;
    }
    assert_eq!(latest, 12);
    assert_eq!(helper.run(latest, 12), None);
}

#[test]
fn paths_of_the_state_trie_are_strictly_increasing() {
    let updates = TrieUpdates {
        account_nodes: vec![
            (path(&[9]), branch(1)),
            (path(&[1, 2]), branch(2)),
            (path(&[1]), branch(3)),
        ],
        removed_nodes: vec![path(&[12]), path(&[1, 2]), path(&[0]), path(&[9])],
        storage_tries: vec![],
    };
    let items = write_trie_updates(&updates, 4).account_branches.items;
    let paths: Vec<Vec<u8>> = items.iter().map(|item| item.path.to_vec()).collect();
    assert_eq!(paths, vec![vec![0], vec![1], vec![1, 2], vec![9], vec![12]]);
    assert!(paths.windows(2).all(|pair| pair[0] < pair[1]));
}

fn writes() -> BlockWrites {
    BlockWrites {
        trie: write_trie_updates(&updates(), 8),
        leaves: write_leaf_updates(post_state(), 8),
    }
}

/// The calls that store a block, of which the one with the number `failing` fails.
fn store_block(failing: Option<usize>) -> (Vec<BlockWrite>, Result<(), usize>) {
    let (mut run, mut next) = BlockWriteRun::start(writes());
    let mut calls = Vec::new();
    while let Some(write) = next {
        let outcome = if failing == Some(calls.len()) { Err(calls.len()) } else { Ok(()) };
        calls.push(write);
        (run, next) = match run.stored(outcome) {
            Ok(rest) => rest,
            Err(error) => return (calls, Err(error)),
        };
    }
    (calls, Ok(()))
}

#[test]
fn block_is_stored_in_order() {
    let BlockWrites { trie, leaves } = writes();
    let mut expected = vec![
        BlockWrite::Branches(trie.account_branches),
        BlockWrite::Branches(trie.storage_branches),
        BlockWrite::Accounts { accounts: leaves.accounts, block_number: 8 },
    ];
    for storages in leaves.storages {
        expected.push(BlockWrite::Storages { storages, block_number: 8 });
    }
    assert_eq!(expected.len(), 5);
    assert_eq!(store_block(None), (expected, Ok(())));
}

#[test]
fn failed_call_is_the_last() {
    let (all, _) = store_block(None);
    for failing in 0..5 {
        let (calls, result) = store_block(Some(failing));
        assert_eq!(calls.len(), failing + 1);
        assert_eq!(calls[..], all[..=failing]);
        assert_eq!(result, Err(failing));
    }
}

/// Catches up from block 5 to block 9. Block `missing` is not there, and block `failing` fails.
/// Gives the blocks that were executed, and the run when it waits, or its error.
fn catch_up(
    missing: Option<u64>,
    failing: Option<u64>,
) -> (Vec<u64>, Result<HelperRun, RunError<&'static str>>) {
    let mut run = ProofHelper::new((), ()).start(5, 9);
    let mut executed = Vec::new();
    loop {
        let event = match run.step() {
            RunStep::Fetch(number) => RunEvent::Fetched(Ok(missing != Some(number))),
            RunStep::Execute(number) => {
                executed.push(number);
                RunEvent::Executed(if failing == Some(number) { Err("x") } else { Ok(()) })
            }
            RunStep::Wait => return (executed, Ok(run)),
            _ => panic!(),
        };
        run = match run.after(event) {
            Ok(next) => next,
            Err(error) => return (executed, Err(error)),
        };
    }
}

#[test]
fn catching_up_ends_at_the_first_failure() {
    let (executed, run) = catch_up(None, None);
    assert_eq!(executed, vec![6, 7, 8, 9]);
    assert_eq!(run.unwrap().step(), RunStep::Wait);
    let (executed, run) = catch_up(Some(8), None);
    assert_eq!(executed, vec![6, 7]);
    assert_eq!(run.err(), Some(RunError::BlockNotFound("Block 8 not found".to_string())));
    let (executed, run) = catch_up(None, Some(7));
    assert_eq!(executed, vec![6, 7]);
    assert_eq!(run.err(), Some(RunError::Failed("x")));
    let failed = ProofHelper::new((), ()).start(5, 9).after(RunEvent::Fetched(Err("y")));
    assert_eq!(failed.err(), Some(RunError::Failed("y")));
    assert_eq!(ProofHelper::new((), ()).start(9, 9).step(), RunStep::Wait);
}

#[test]
fn run_follows_notifications() {
    let after = |run: HelperRun, event: RunEvent<&'static str>| run.after(event).unwrap();
    let run = ProofHelper::new((), ()).start(9, 9);
    let committed = ChainNotification::Committed { tip_number: 11, tip_hash: [4; 32] };
    let run = after(run, RunEvent::Notified(Ok(Some(committed))));
    assert_eq!(run.step(), RunStep::ReadLatest);
    let run = after(run, RunEvent::LatestStored(Ok(9)));
    assert_eq!(run.step(), RunStep::Execute(10));
    let run = after(run, RunEvent::Executed(Ok(())));
    assert_eq!(run.step(), RunStep::Execute(11));
    // what was not asked for changes nothing
    let run = after(run, RunEvent::Reported(Ok(())));
    assert_eq!(run.step(), RunStep::Execute(11));
    let run = after(run, RunEvent::Executed(Ok(())));
    assert_eq!(run.step(), RunStep::Report(11, [4; 32]));
    let run = after(run, RunEvent::Reported(Ok(())));
    assert_eq!(run.step(), RunStep::Wait);
    // nothing is new the second time
    let run = after(run, RunEvent::Notified(Ok(Some(committed))));
    let run = after(run, RunEvent::LatestStored(Ok(11)));
    assert_eq!(run.step(), RunStep::Wait);
    let other = ChainNotification::Other { committed_tip: Some((8, [1; 32])) };
    let run = after(run, RunEvent::Notified(Ok(Some(other))));
    assert_eq!(run.step(), RunStep::Report(8, [1; 32]));
    let run = after(run, RunEvent::Reported(Ok(())));
    let run = after(run, RunEvent::Notified(Ok(None)));
    assert_eq!(run.step(), RunStep::Done);
}

#[test]
fn failed_steps_end_the_run() {
    let committed = ChainNotification::Committed { tip_number: 11, tip_hash: [4; 32] };
    let waiting = || ProofHelper::new((), ()).start(9, 9);
    let notified = || waiting().after(RunEvent::<&str>::Notified(Ok(Some(committed)))).unwrap();
    let planned = || notified().after(RunEvent::<&str>::LatestStored(Ok(10))).unwrap();
    let reporting = || planned().after(RunEvent::<&str>::Executed(Ok(()))).unwrap();
    let error = Some(RunError::Failed("x"));
    assert_eq!(waiting().after(RunEvent::Notified(Err("x"))).err(), error);
    assert_eq!(notified().after(RunEvent::LatestStored(Err("x"))).err(), error);
    assert_eq!(planned().after(RunEvent::Executed(Err("x"))).err(), error);
    assert_eq!(reporting().after(RunEvent::Reported(Err("x"))).err(), error);
}
