use proof_helper::config::DynamoDbConfig;
use proof_helper::dynamodb::{
    full_path, AttributeValue, BatchWriteRun, CountRun, DynamoDbPreimageStore, DynamoDbStep, FoundPreimages,
    HashedPreimage, HashesRun, PreimageBatch, ScanStep, BLOCK_FILTER,
};
use proof_helper::primitives::Nibbles;
use proof_helper::prune::{DeleteKey, PruneRun, PruneStep, ScannedItem, PRUNE_FILTER};
use proof_helper::storage::ExternalStorageError;

fn preimage(n: u8) -> HashedPreimage {
    HashedPreimage {
        hash: [n; 32],
        preimage: vec![n, n],
        hashed_address: if n % 2 == 0 { None } else { Some([1; 32]) },
        path: Nibbles::from_nibbles_unchecked(&[n % 16, 3]),
    }
}

#[test]
fn names_come_from_the_configuration() {
    let store = DynamoDbPreimageStore::new(&DynamoDbConfig::default());
    assert_eq!(store.table_name(), "proof-helper-preimages");
    assert_eq!(store.block_index_name(), "hash_index");
}

#[test]
fn preimage_becomes_an_item() {
    let p = preimage(5);
    let item = DynamoDbPreimageStore::store_preimage(&p, 1234);
    assert_eq!(item.full_path, full_path(&p.hashed_address, &p.path));
    assert_eq!(item.hash, vec![5; 32]);
    assert_eq!(item.block_number, "1234");
    assert_eq!(item.data, vec![5, 5]);
}

#[test]
fn batches_are_cut_for_requests() {
    for (n, sizes) in [
        (0u8, vec![]),
        (1, vec![1]),
        (25, vec![25]),
        (26, vec![25, 1]),
        (60, vec![25, 25, 10]),
    ] {
        let batch = PreimageBatch { block_number: 7, items: (0..n).map(preimage).collect() };
        let requests = DynamoDbPreimageStore::store_preimages_batch(&batch);
        let found: Vec<usize> = requests.iter().map(|r| r.len()).collect();
        assert_eq!(found, sizes);
        let items: Vec<_> = requests.into_iter().flatten().collect();
        for (i, item) in items.iter().enumerate() {
            assert_eq!(*item, DynamoDbPreimageStore::store_preimage(&preimage(i as u8), 7));
        }
    }
}

/// Sends the requests of a batch, of which the one with the number `failing` fails: how many
/// items each had that was sent, and the result.
fn send(batch: &PreimageBatch, failing: Option<usize>) -> (Vec<usize>, Option<String>) {
    let mut run = BatchWriteRun::start(batch);
    let mut sent = Vec::new();
    while let Some(items) = run.request() {
        let outcome = if failing == Some(sent.len()) { Err("x".to_string()) } else { Ok(()) };
        sent.push(items.len());
        run = match run.sent(outcome) {
            Ok(next) => next,
            Err(error) => return (sent, Some(error.message())),
        };
    }
    (sent, None)
}

#[test]
fn failed_request_is_the_last() {
    let batch = PreimageBatch { block_number: 7, items: (0..60).map(preimage).collect() };
    assert_eq!(send(&batch, None), (vec![25, 25, 10], None));
    let error = Some("Batch operation failed: Failed to batch write preimages: x".to_string());
    assert_eq!(send(&batch, Some(0)), (vec![25], error.clone()));
    assert_eq!(send(&batch, Some(1)), (vec![25, 25], error.clone()));
    assert_eq!(send(&batch, Some(2)), (vec![25, 25, 10], error));
    let empty = PreimageBatch { block_number: 7, items: vec![] };
    assert_eq!(send(&empty, Some(0)), (vec![], None));
}

#[test]
fn requests_of_a_run_are_those_of_the_batch() {
    let batch = PreimageBatch { block_number: 7, items: (0..26).map(preimage).collect() };
    let requests = DynamoDbPreimageStore::store_preimages_batch(&batch);
    let run = BatchWriteRun::start(&batch);
    assert_eq!(run.request(), Some(&requests[0]));
    let run = run.sent(Ok(())).unwrap();
    assert_eq!(run.request(), Some(&requests[1]));
    assert_eq!(
        BatchWriteRun::start(&batch).build_failed("x".to_string()),
        ExternalStorageError::StorageError("Failed to build put request: x".to_string())
    );
    let run = run.sent(Ok(())).unwrap();
    assert_eq!(run.request(), None);
}

#[test]
fn preimage_is_taken_from_the_first_item() {
    let get = |items| DynamoDbPreimageStore::get_preimage(&items);
    assert_eq!(get(None), Ok(None));
    assert_eq!(get(Some(vec![])), Ok(None));
    assert_eq!(get(Some(vec![None, Some(AttributeValue::B(vec![1]))])), Ok(None));
    assert_eq!(get(Some(vec![Some(AttributeValue::B(vec![1, 2]))])), Ok(Some(vec![1, 2])));
    assert_eq!(
        get(Some(vec![Some(AttributeValue::Other)])),
        Err(ExternalStorageError::SerializationError("Expected binary attribute".to_string()))
    );
    assert!(DynamoDbPreimageStore::preimage_exists(1));
    assert!(!DynamoDbPreimageStore::preimage_exists(0));
}

#[test]
fn preimages_are_collected_by_hash() {
    let mut found = FoundPreimages::new();
    for (hash, looked) in [
        ([1; 32], Some(vec![1])),
        ([2; 32], None),
        ([3; 32], Some(vec![3])),
        ([1; 32], Some(vec![9, 9])),
    ] {
        found = found.get_preimages_batch(&hash, Ok(looked)).unwrap();
    }
    assert_eq!(found.into_vec(), vec![([1; 32], vec![9, 9]), ([3; 32], vec![3])]);
    let error = FoundPreimages::new()
        .get_preimages_batch(&[0xab; 32], Err(ExternalStorageError::StorageError("x".to_string())))
        .unwrap_err();
    assert_eq!(
        error,
        ExternalStorageError::BatchError(format!(
            "Failed to get preimage for hash {}: Storage operation failed: x",
            "ab".repeat(32)
        ))
    );
}

fn scanned(n: u32) -> ScannedItem<u32> {
    ScannedItem {
        full_path: if n % 10 == 3 { None } else { Some(n) },
        block_number: if n % 10 == 4 { None } else { Some(n + 1000) },
    }
}

#[test]
fn pruning_deletes_page_by_page() {
    let (run, step): (PruneRun<u32, &str>, _) = PruneRun::prune_before_block(1100);
    assert_eq!(PRUNE_FILTER, "block_number < :before_block");
    assert_eq!(run.block_filter(), "1100");
    assert!(matches!(step, PruneStep::Scan(None)));
    let mut run = run;
    let mut step = step;
    let mut pages = vec![
        (vec![], Some("a")),
        ((0..30).map(scanned).collect::<Vec<_>>(), Some("b")),
        (vec![scanned(3), scanned(4)], None),
    ]
    .into_iter();
    let mut starts = Vec::new();
    let mut deleted = Vec::new();
    let removed = loop {
        let next = match step {
            PruneStep::Scan(from) => {
                starts.push(from);
                run.scanned(Ok(pages.next().unwrap()))
            }
            PruneStep::Delete(keys) => {
                assert!(!keys.is_empty() && keys.len() <= 25);
                deleted.extend(keys);
                run.deleted(Ok(()))
            }
            PruneStep::Done(count) => break count,
        };
        let (after, then) = next.unwrap();
        run = after;
        step = then;
        assert_eq!(run.block_filter(), "1100");
    };
    assert_eq!(starts, vec![None, Some("a"), Some("b")]);
    let expected: Vec<_> = (0..30)
        .filter(|n| n % 10 != 3 && n % 10 != 4)
        .map(|n| DeleteKey { full_path: n, block_number: n + 1000 })
        .collect();
    assert_eq!(deleted, expected);
    // all items of a piece count, also those without a key; a piece without keys does not
    assert_eq!(removed, 30);
}

#[test]
fn pruning_leaves_what_is_not_old() {
    // items by path and block, of which a page of the scan looks at 40
    let mut table: Vec<(u32, u32)> = (0..100).map(|n| (n, n * 7 % 100)).collect();
    let old = table.iter().filter(|(_, block)| *block < 60).count();
    let (mut run, mut step): (PruneRun<u32, usize>, _) = PruneRun::prune_before_block(60);
    let snapshot = table.clone();
    let removed = loop {
        let next = match step {
            PruneStep::Scan(from) => {
                let from = from.unwrap_or(0);
                let before: u32 = run.block_filter().parse().unwrap();
                let items = snapshot[from..]
                    .iter()
                    .take(40)
                    .filter(|(_, block)| *block < before)
                    .map(|(path, block)| ScannedItem {
                        full_path: Some(*path),
                        block_number: Some(*block),
                    })
                    .collect();
                let to = from + 40;
                run.scanned(Ok((items, if to < snapshot.len() { Some(to) } else { None })))
            }
            PruneStep::Delete(keys) => {
                for key in keys {
                    let item = (key.full_path, key.block_number);
                    let at = table.iter().position(|other| *other == item).unwrap();
                    table.remove(at);
                }
                run.deleted(Ok(()))
            }
            PruneStep::Done(count) => break count,
        };
        (run, step) = next.unwrap();
    };
    assert_eq!(removed, old as u64);
    assert_eq!(table.len(), 100 - old);
    assert!(table.iter().all(|(_, block)| *block >= 60));
}

#[test]
fn pruning_stops_at_an_error() {
    let (run, _): (PruneRun<u32, u32>, _) = PruneRun::prune_before_block(5);
    assert_eq!(
        run.scanned(Err("x".to_string())).err(),
        Some(ExternalStorageError::StorageError("Failed to scan for pruning: x".to_string()))
    );
    let (run, _): (PruneRun<u32, u32>, _) = PruneRun::prune_before_block(5);
    assert_eq!(
        run.build_failed("x".to_string()),
        ExternalStorageError::StorageError("Failed to build delete request: x".to_string())
    );
    let (run, _): (PruneRun<u32, u32>, _) = PruneRun::prune_before_block(5);
    let (run, step) = run.scanned(Ok((vec![scanned(1)], None))).unwrap();
    assert!(matches!(step, PruneStep::Delete(_)));
    assert_eq!(
        run.deleted(Err("x".to_string())).err(),
        Some(ExternalStorageError::BatchError("Failed to batch delete items: x".to_string()))
    );
}

#[test]
fn counts_add_up() {
    let run = CountRun::count_preimages_for_block(1206);
    assert_eq!(BLOCK_FILTER, "block_number = :block_number");
    assert_eq!(run.block_filter(), "1206");
    let (run, step) = run.counted(Ok((3, Some('k')))).unwrap();
    assert!(matches!(step, ScanStep::Scan(Some('k'))));
    let (run, step) = run.counted(Ok((4, None::<char>))).unwrap();
    assert!(matches!(step, ScanStep::Done(7)));
    assert_eq!((run.block_filter(), run.count()), ("1206".to_string(), 7));
    assert_eq!(
        run.counted::<char>(Err("x".to_string())).err(),
        Some(ExternalStorageError::StorageError(
            "Failed to count preimages for block: x".to_string()
        ))
    );
}

#[test]
fn hashes_of_the_right_length_are_kept() {
    let run = HashesRun::get_hashes_for_block(1207);
    assert_eq!(run.block_filter(), "1207");
    let page = vec![
        Some(AttributeValue::B(vec![1; 32])),
        None,
        Some(AttributeValue::B(vec![2; 31])),
        Some(AttributeValue::Other),
    ];
    let (run, step) = run.scanned(Ok((page, Some(1)))).unwrap();
    assert!(matches!(step, ScanStep::Scan(Some(1))));
    assert_eq!(run.block_filter(), "1207");
    let (run, step) =
        run.scanned(Ok((vec![Some(AttributeValue::B(vec![3; 32]))], None::<i32>))).unwrap();
    assert!(matches!(step, ScanStep::Done(())));
    assert_eq!(run.into_hashes(), vec![[1; 32], [3; 32]]);
    assert_eq!(
        HashesRun::get_hashes_for_block(1207).scanned::<u8>(Err("x".to_string())).err(),
        Some(ExternalStorageError::StorageError("Failed to get hashes for block: x".to_string()))
    );
}

#[test]
fn service_failures_have_their_errors() {
    let error = |step| {
        DynamoDbPreimageStore::checked::<()>(step, Err("x".to_string())).unwrap_err().message()
    };
    assert_eq!(error(DynamoDbStep::Put), "Storage operation failed: Failed to store preimage: x");
    assert_eq!(
        error(DynamoDbStep::BuildPut),
        "Storage operation failed: Failed to build put request: x"
    );
    assert_eq!(
        error(DynamoDbStep::BatchWrite),
        "Batch operation failed: Failed to batch write preimages: x"
    );
    assert_eq!(error(DynamoDbStep::Get), "Storage operation failed: Failed to get preimage: x");
    assert_eq!(
        error(DynamoDbStep::Exists),
        "Storage operation failed: Failed to check existence: x"
    );
    assert_eq!(
        error(DynamoDbStep::BuildDelete),
        "Storage operation failed: Failed to build delete request: x"
    );
    let health = |described| DynamoDbPreimageStore::health_check(described);
    assert_eq!(health(Ok(Some(true))), Ok(()));
    assert_eq!(
        health(Ok(Some(false))),
        Err(ExternalStorageError::ConnectionError("Table is not active".to_string()))
    );
    assert_eq!(
        health(Ok(None)),
        Err(ExternalStorageError::ConnectionError("Table not found".to_string()))
    );
    assert_eq!(
        health(Err("x".to_string())),
        Err(ExternalStorageError::ConnectionError("Health check failed: x".to_string()))
    );
}
