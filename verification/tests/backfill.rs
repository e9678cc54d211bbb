use proof_helper::backfill::{
    after_next_dup, after_next_no_dup, after_seek, AccountLeaves, Backfill, BackfillJob,
    BackfillStage, CompletionEstimatable, DupStep, StorageLeaves, StorageTrieEntry, LOG_THRESHOLD,
    PROGRESS_WHOLE, STORAGE_THRESHOLD,
};
use proof_helper::branch::BranchNodeCompact;
use proof_helper::primitives::{Nibbles, B256};
use proof_helper::storage::{Account, StorageEntry};

fn hash(first: u8) -> B256 {
    let mut hash = [0; 32];
    hash[0] = first;
    hash
}

fn branch() -> BranchNodeCompact {
    BranchNodeCompact { state_mask: 3, tree_mask: 0, hash_mask: 0, hashes: vec![], root_hash: None }
}

#[test]
fn batches_make_up_the_source() {
    for threshold in [0, 1, 3, 4, 100] {
        let mut run: Backfill<B256, u32> = Backfill::new(threshold, 2);
        let source: Vec<(B256, u32)> = (0..10).map(|i| (hash(i as u8), i)).collect();
        let mut batches = Vec::new();
        for (i, entry) in source.iter().enumerate() {
            let step = run.backfill(*entry);
            assert_eq!(step.progress.is_some(), (i + 1) % 2 == 0);
            if let Some(progress) = step.progress {
                assert_eq!(progress, (i as u64) << 16);
            }
            batches.extend(step.save);
        }
        assert_eq!(run.total_entries(), 10);
        batches.extend(run.finish());
        let full = threshold.max(1);
        for (i, batch) in batches.iter().enumerate() {
            assert!(batch.len() == full || (i == batches.len() - 1 && batch.len() < full));
            assert!(!batch.is_empty());
        }
        assert_eq!(batches.concat(), source);
    }
}

type Entry = (B256, u8);

/// An entry with its number.
fn e(i: u8) -> Entry {
    let mut key = [0; 32];
    key[31] = i;
    (key, i)
}

/// Reads a source and stores its entries, of which the batch with the number `failing` cannot be
/// stored: the batches, how much was read, and the result.
fn fill_from(
    source: Vec<Result<Entry, &'static str>>,
    storage_threshold: usize,
    failing: Option<usize>,
) -> (Vec<Vec<Entry>>, usize, Result<u64, &'static str>) {
    let mut run: Backfill<B256, u8> = Backfill::new(storage_threshold, 100);
    let mut batches = Vec::new();
    let mut reads = 0;
    while !run.is_ended() {
        let item = source.get(reads).copied().transpose();
        if reads < source.len() {
            reads += 1;
        }
        let (after, step) = match run.read(item) {
            Ok(next) => next,
            Err(error) => return (batches, reads, Err(error)),
        };
        run = after;
        if let Some(batch) = step.save {
            let outcome = if failing == Some(batches.len()) { Err("y") } else { Ok(()) };
            batches.push(batch);
            run = match run.saved(outcome) {
                Ok(next) => next,
                Err(error) => return (batches, reads, Err(error)),
            };
        }
    }
    (batches, reads, Ok(run.total_entries()))
}

#[test]
fn failed_read_ends_the_run() {
    let source = vec![Ok(e(1)), Ok(e(2)), Ok(e(3)), Err("x"), Ok(e(5))];
    assert_eq!(fill_from(source, 2, None), (vec![vec![e(1), e(2)]], 4, Err("x")));
    assert_eq!(fill_from(vec![Err("x")], 2, None), (vec![], 1, Err("x")));
}

#[test]
fn failed_save_ends_the_run() {
    let source: Vec<Result<Entry, &str>> = (1..=5).map(|i| Ok(e(i))).collect();
    let batches = vec![vec![e(1), e(2)], vec![e(3), e(4)], vec![e(5)]];
    assert_eq!(fill_from(source.clone(), 2, None), (batches.clone(), 5, Ok(5)));
    for (failing, reads) in [(0, 2), (1, 4), (2, 5)] {
        assert_eq!(
            fill_from(source.clone(), 2, Some(failing)),
            (batches[..=failing].to_vec(), reads, Err("y"))
        );
    }
}

#[test]
fn empty_source_stores_nothing() {
    let mut run: Backfill<B256, u32> = Backfill::new(STORAGE_THRESHOLD, LOG_THRESHOLD);
    assert_eq!(run.total_entries(), 0);
    assert!(!run.is_ended());
    assert!(run.finish().is_none());
    assert!(run.is_ended());
    assert_eq!((STORAGE_THRESHOLD, LOG_THRESHOLD), (100000, 100000));
}

#[test]
fn progress_is_estimated_from_the_front() {
    let mut key = [0; 32];
    key[0] = 0x01;
    key[1] = 0x02;
    key[2] = 0x03;
    key[3] = 0xff;
    assert_eq!(key.estimate_progress(), 0x010203);
    assert_eq!([0xff; 32].estimate_progress(), PROGRESS_WHOLE - 1);
    let path = Nibbles::from_nibbles_unchecked(&[1, 2, 3, 4, 5, 15, 9]);
    assert_eq!(path.estimate_progress(), 0x12345f);
    assert_eq!(Nibbles::from_nibbles_unchecked(&[8, 0, 0, 0, 0, 0]).estimate_progress() * 2, PROGRESS_WHOLE);
}

#[test]
fn progress_of_a_short_path_is_its_own_share() {
    let progress = |nibbles: &[u8]| Nibbles::from_nibbles_unchecked(nibbles).estimate_progress();
    assert_eq!(progress(&[]), 0);
    assert_eq!(progress(&[8]) * 2, PROGRESS_WHOLE);
    assert_eq!(progress(&[1, 2, 3]), 0x123000);
    assert_eq!(progress(&[15, 15, 15, 15, 15]), 0xfffff0);
    assert_eq!(progress(&[1, 2, 3, 0, 0, 0]), progress(&[1, 2, 3]));
    let mut run: Backfill<Nibbles, ()> = Backfill::new(STORAGE_THRESHOLD, 1);
    let step = run.backfill((Nibbles::from_nibbles_unchecked(&[4]), ()));
    assert_eq!(step.progress, Some(PROGRESS_WHOLE / 4));
}

const STAGES: [BackfillStage; 5] = [
    BackfillStage::HashedAccounts,
    BackfillStage::HashedStorage,
    BackfillStage::StoragesTrie,
    BackfillStage::AccountsTrie,
    BackfillStage::SetEarliest { block_number: 17, hash: [9; 32] },
];

/// The stages that are done, and what comes of them, if one of them fails.
fn fill(
    earliest: Option<(u64, B256)>,
    failing: Option<usize>,
) -> (Vec<BackfillStage>, Result<(), usize>) {
    let mut run = BackfillJob::new((), &()).run(&earliest, 17, [9; 32]);
    let mut done = Vec::new();
    while let Some(stage) = run.stage() {
        let outcome = if failing == Some(done.len()) { Err(done.len()) } else { Ok(()) };
        done.push(stage);
        run = match run.finished(outcome) {
            Ok(next) => next,
            Err(error) => return (done, Err(error)),
        };
    }
    (done, Ok(()))
}

#[test]
fn stages_run_once() {
    assert_eq!(fill(None, None), (STAGES.to_vec(), Ok(())));
    assert_eq!(fill(Some((3, [0; 32])), None), (vec![], Ok(())));
}

#[test]
fn failed_stage_is_the_last() {
    for failing in 0..5 {
        assert_eq!(fill(None, Some(failing)), (STAGES[..=failing].to_vec(), Err(failing)));
    }
}

#[test]
fn everything_is_stored_at_block_zero() {
    let job = BackfillJob::new((), &());
    let account = Account { nonce: 2, balance: [1; 32], bytecode_hash: Some([2; 32]) };
    assert_eq!(
        job.backfill_hashed_accounts(vec![(hash(1), account)]),
        AccountLeaves { block_number: 0, accounts: vec![(hash(1), Some(account))] }
    );
    let slot = StorageEntry { key: [3; 32], value: [4; 32] };
    assert_eq!(
        job.backfill_hashed_storage(vec![(hash(1), slot), (hash(2), slot)]),
        StorageLeaves { block_number: 0, storages: vec![(hash(1), slot), (hash(2), slot)] }
    );
    let path = Nibbles::from_nibbles_unchecked(&[4, 5]);
    let batch = job.backfill_accounts_trie(&vec![(path.clone(), branch())]);
    assert_eq!(batch.block_number, 0);
    assert_eq!(batch.items.len(), 1);
    assert_eq!(batch.items[0].block_number, 0);
    assert_eq!(batch.items[0].path, path);
    assert_eq!(batch.items[0].hashed_address, None);
    assert_eq!(batch.items[0].branch, Some(branch()));
    let entry = StorageTrieEntry { nibbles: path.clone(), node: branch() };
    let batch = job.backfill_storages_trie(&vec![(hash(6), entry)]);
    assert_eq!(batch.block_number, 0);
    assert_eq!(batch.items[0].path, path);
    assert_eq!(batch.items[0].hashed_address, Some(hash(6)));
    assert_eq!(batch.items[0].branch, Some(branch()));
}

#[test]
fn walk_over_several_values_to_a_key() {
    type Found = Result<Option<(u8, u8)>, u8>;
    let dup = |found: Found| after_next_dup(found);
    assert!(matches!(dup(Ok(Some((1, 2)))), DupStep::Yield(Ok((1, 2)))));
    assert!(matches!(dup(Ok(None)), DupStep::NextKey));
    assert!(matches!(dup(Err(9)), DupStep::Yield(Err(9))));
    let no_dup = |found: Found| after_next_no_dup(found);
    assert!(matches!(no_dup(Ok(Some((1, 2)))), DupStep::Seek(1)));
    assert!(matches!(no_dup(Ok(None)), DupStep::End));
    assert!(matches!(no_dup(Err(9)), DupStep::End));
    let seek = |found: Found| after_seek(found);
    assert!(matches!(seek(Ok(Some((1, 2)))), DupStep::Yield(Ok((1, 2)))));
    assert!(matches!(seek(Ok(None)), DupStep::End));
    assert!(matches!(seek(Err(9)), DupStep::Yield(Err(9))));
}

/// Walks over rows from one of them on, or from before the first.
fn walk(rows: &[(u8, u8)], start: Option<usize>, starts_at_first: bool) -> Vec<(u8, u8)> {
    let mut at = start;
    let mut found = Vec::new();
    loop {
        let next = match at {
            None if starts_at_first => Some(0),
            None => None,
            Some(i) => Some(i + 1).filter(|j| *j < rows.len() && rows[*j].0 == rows[i].0),
        };
        at = next.or(at);
        let step = after_next_dup::<_, _, ()>(Ok(next.and_then(|i| rows.get(i).copied())));
        let step = match step {
            DupStep::NextKey => {
                let next = match at {
                    None => rows.first(),
                    Some(i) => rows[i..].iter().find(|row| row.0 != rows[i].0),
                };
                after_next_no_dup(Ok(next.copied()))
            }
            other => other,
        };
        let step = match step {
            DupStep::Seek(key) => {
                at = rows.iter().position(|row| row.0 >= key);
                after_seek(Ok(at.map(|i| rows[i])))
            }
            other => other,
        };
        match step {
            DupStep::Yield(Ok(entry)) => found.push(entry),
            DupStep::End => return found,
            _ => panic!(),
        }
    }
}

#[test]
fn walk_gives_every_row_after_the_start() {
    let rows = [(1, 1), (1, 2), (2, 1), (4, 1), (4, 2), (4, 3)];
    assert_eq!(walk(&rows, None, true), rows);
    assert_eq!(walk(&rows, None, false), rows);
    for start in 0..rows.len() {
        assert_eq!(walk(&rows, Some(start), false), rows[start + 1..]);
    }
    assert_eq!(walk(&[], None, false), []);
}
