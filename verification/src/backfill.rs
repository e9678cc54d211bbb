//! The first filling of a store from the node's own database.
use vstd::prelude::*;

use crate::branch::{BranchNodeCompact, BranchView};
use crate::primitives::{Nibbles, B256};
use crate::storage::{Account, EntryView, PreimageEntry, StorageEntry, TrieBranchesBatch};

verus! {

/// How many entries are stored at a time.
pub const STORAGE_THRESHOLD: usize = 100000;

/// After how many entries progress is reported each time.
pub const LOG_THRESHOLD: usize = 100000;

/// What a progress estimate is out of: 256 to the third and 16 to the sixth.
pub const PROGRESS_WHOLE: u64 = 16777216;

/// The number that bytes make in base `base`, the most significant first.
pub open spec fn in_base(base: nat, places: Seq<u8>) -> nat
    decreases places.len(),
{
    if places.len() == 0 {
        0
    } else {
        base * in_base(base, places.drop_last()) + places.last() as nat
    }
}

/// A key that tells how much of all keys is behind it.
pub trait CompletionEstimatable {
    /// How much is behind it, out of [`PROGRESS_WHOLE`].
    spec fn progress(&self) -> nat;

    /// How much is behind this key, out of [`PROGRESS_WHOLE`].
    fn estimate_progress(&self) -> (r: u64)
        ensures
            r == self.progress(),
            r < PROGRESS_WHOLE,
    ;
}

impl CompletionEstimatable for B256 {
    /// By the first 3 bytes.
    open spec fn progress(&self) -> nat {
        in_base(256, self@.take(3))
    }

    fn estimate_progress(&self) -> (r: u64) {
        proof {
            let places = self@.take(3);
            reveal_with_fuel(in_base, 4);
            assert(places.drop_last() =~= self@.take(2));
            assert(places.drop_last().drop_last() =~= self@.take(1));
            assert(places.drop_last().drop_last().drop_last() =~= Seq::empty());
        }
        (self[0] as u64 * 256 + self[1] as u64) * 256 + self[2] as u64
    }
}

/// How many nibbles of a path an estimate goes by: 6, or all of a path with fewer.
pub open spec fn estimate_places(len: nat) -> nat {
    if len < 6 {
        len
    } else {
        6
    }
}

impl CompletionEstimatable for Nibbles {
    /// By the first 6 nibbles. A shorter path is the share that its own nibbles make.
    open spec fn progress(&self) -> nat {
        let places = estimate_places(self@.len());
        in_base(16, self@.take(places as int)) * (vstd::arithmetic::power::pow(
            16,
            (6 - places) as nat,
        ) as nat)
    }

    fn estimate_progress(&self) -> (r: u64) {
        let nibbles = self.as_slice();
        let mut value: u64 = 0;
        let mut limit: u64 = 1;
        let mut i: usize = 0;
        let ghost all = estimate_places(self@.len());
        assert(self@.take(0) =~= Seq::empty());
        assert(vstd::arithmetic::power::pow(16, 0) == 1) by {
            reveal(vstd::arithmetic::power::pow);
        }
        while i < 6
            invariant
                i <= 6,
                nibbles@ == self@,
                all == estimate_places(self@.len()),
                crate::primitives::valid_path(self@),
                i <= all ==> value == in_base(16, self@.take(i as int)),
                i > all ==> value == in_base(16, self@.take(all as int))
                    * vstd::arithmetic::power::pow(16, (i - all) as nat),
                value < limit,
                i == 0 ==> limit == 1,
                i == 1 ==> limit == 16,
                i == 2 ==> limit == 256,
                i == 3 ==> limit == 4096,
                i == 4 ==> limit == 65536,
                i == 5 ==> limit == 1048576,
                i == 6 ==> limit == 16777216,
            decreases 6 - i,
        {
            if i < nibbles.len() {
                assert(self@.take(i + 1).drop_last() =~= self@.take(i as int));
                assert(self@.take(i + 1).last() == nibbles@[i as int]);
                value = value * 16 + nibbles[i] as u64;
            } else {
                proof {
                    lemma_one_place_more(
                        in_base(16, self@.take(all as int)) as int,
                        (i - all) as nat,
                    );
                }
                value = value * 16;
            }
            limit = limit * 16;
            i += 1;
        }
        proof {
            let front = in_base(16, self@.take(all as int)) as int;
            let share = vstd::arithmetic::power::pow(16, (6 - all) as nat);
            vstd::arithmetic::power::lemma_pow_positive(16, (6 - all) as nat);
            if all == 6 {
                assert(share == 1) by {
                    reveal(vstd::arithmetic::power::pow);
                }
                assert(front * share == front) by (nonlinear_arith)
                    requires
                        share == 1,
                ;
            }
        }
        value
    }
}

/// One place more makes a number 16 times as large.
proof fn lemma_one_place_more(front: int, places: nat)
    ensures
        front * vstd::arithmetic::power::pow(16, places) * 16 == front
            * vstd::arithmetic::power::pow(16, places + 1),
        front * vstd::arithmetic::power::pow(16, 0) == front,
{
    let share = vstd::arithmetic::power::pow(16, places);
    assert(vstd::arithmetic::power::pow(16, places + 1) == 16 * share) by {
        reveal(vstd::arithmetic::power::pow);
    }
    assert(vstd::arithmetic::power::pow(16, 0) == 1) by {
        reveal(vstd::arithmetic::power::pow);
    }
    assert(front * share * 16 == front * (16 * share)) by (nonlinear_arith);
}

/// The entries that were read and not stored yet, and how many were read in all.
#[derive(Debug)]
pub struct Backfill<Key, Value> {
    entries: Vec<(Key, Value)>,
    total_entries: u64,
    storage_threshold: usize,
    log_threshold: usize,
    ended: bool,
}

/// The contents of a [`Backfill`].
#[verifier::ext_equal]
pub struct BackfillView<Key, Value> {
    /// The entries that are waiting to be stored.
    pub waiting: Seq<(Key, Value)>,
    /// How many entries were read.
    pub total: u64,
    /// How many entries are stored at a time.
    pub storage_every: usize,
    /// After how many entries progress is reported each time.
    pub log_every: usize,
    /// Whether there are no more entries to read.
    pub ended: bool,
}

impl<Key, Value> View for Backfill<Key, Value> {
    type V = BackfillView<Key, Value>;

    closed spec fn view(&self) -> BackfillView<Key, Value> {
        BackfillView {
            waiting: self.entries@,
            total: self.total_entries,
            storage_every: self.storage_threshold,
            log_every: self.log_threshold,
            ended: self.ended,
        }
    }
}

/// What is due after an entry was read.
#[derive(Debug)]
pub struct BackfillStep<Key, Value> {
    /// The progress to report, out of [`PROGRESS_WHOLE`].
    pub progress: Option<u64>,
    /// The entries to store.
    pub save: Option<Vec<(Key, Value)>>,
}

/// The entries that are waiting and the batch to store, if one is full, after one more entry
/// was read.
pub open spec fn feed<T>(waiting: Seq<T>, entry: T, storage_threshold: nat) -> (
    Seq<T>,
    Option<Seq<T>>,
) {
    let all = waiting.push(entry);
    if all.len() >= storage_threshold {
        (Seq::empty(), Some(all))
    } else {
        (all, None)
    }
}

/// The entries that are left over, if there are any: they make the last batch.
pub open spec fn left_over<T>(waiting: Seq<T>) -> Option<Seq<T>> {
    if waiting.len() == 0 {
        None
    } else {
        Some(waiting)
    }
}

/// The contents of an optional batch.
pub open spec fn save_view<T>(save: Option<Vec<T>>) -> Option<Seq<T>> {
    match save {
        Some(entries) => Some(entries@),
        None => None,
    }
}

impl<Key, Value> BackfillView<Key, Value> {
    /// Nothing was read yet.
    pub open spec fn fresh(storage_every: usize, log_every: usize) -> Self {
        BackfillView { waiting: Seq::empty(), total: 0, storage_every, log_every, ended: false }
    }

    /// The run after one more entry was read, and the batch to store, if one is full.
    pub open spec fn with_entry(self, entry: (Key, Value)) -> (Self, Option<Seq<(Key, Value)>>) {
        let (waiting, save) = feed(self.waiting, entry, self.storage_every as nat);
        (BackfillView { waiting, total: (self.total + 1) as u64, ..self }, save)
    }

    /// The run after the last entry was read, and the batch to store, if any are left over.
    pub open spec fn with_end(self) -> (Self, Option<Seq<(Key, Value)>>) {
        (BackfillView { waiting: Seq::empty(), ended: true, ..self }, left_over(self.waiting))
    }

    /// Whether progress is reported with the next entry.
    pub open spec fn reports_next(self) -> bool {
        (self.total + 1) % (self.log_every as int) == 0
    }
}

impl<Key: CompletionEstimatable, Value> Backfill<Key, Value> {
    /// Nothing was read yet.
    pub fn new(storage_threshold: usize, log_threshold: usize) -> (r: Self)
        ensures
            r@ == BackfillView::<Key, Value>::fresh(storage_threshold, log_threshold),
    {
        Self {
            entries: Vec::new(),
            total_entries: 0,
            storage_threshold,
            log_threshold,
            ended: false,
        }
    }

    /// How many entries were read.
    pub fn total_entries(&self) -> (r: u64)
        ensures
            r == self@.total,
    {
        self.total_entries
    }

    /// Whether there are no more entries to read.
    pub fn is_ended(&self) -> (r: bool)
        ensures
            r == self@.ended,
    {
        self.ended
    }

    /// Take one more entry.
    pub fn backfill(&mut self, entry: (Key, Value)) -> (r: BackfillStep<Key, Value>)
        requires
            old(self)@.log_every > 0,
            old(self)@.total < u64::MAX,
        ensures
            (final(self)@, save_view(r.save)) == old(self)@.with_entry(entry),
            r.progress is Some == old(self)@.reports_next(),
            r.progress is Some ==> r.progress->0 == entry.0.progress(),
    {
        self.total_entries = self.total_entries + 1;
        let progress = if self.total_entries % (self.log_threshold as u64) == 0 {
            Some(entry.0.estimate_progress())
        } else {
            None
        };
        self.entries.push(entry);
        if self.entries.len() >= self.storage_threshold {
            let mut full: Vec<(Key, Value)> = Vec::new();
            std::mem::swap(&mut full, &mut self.entries);
            BackfillStep { progress, save: Some(full) }
        } else {
            BackfillStep { progress, save: None }
        }
    }

    /// There are no more entries: what is left over is to be stored.
    pub fn finish(&mut self) -> (r: Option<Vec<(Key, Value)>>)
        ensures
            (final(self)@, save_view(r)) == old(self)@.with_end(),
    {
        self.ended = true;
        let mut rest: Vec<(Key, Value)> = Vec::new();
        std::mem::swap(&mut rest, &mut self.entries);
        assert(self@ =~= old(self)@.with_end().0);
        if rest.len() == 0 {
            None
        } else {
            Some(rest)
        }
    }

    /// Go on after the source was read: with an entry, or with its end. A read that failed ends
    /// the run with its error, and what is waiting is not stored.
    pub fn read<Error>(self, item: Result<Option<(Key, Value)>, Error>) -> (r: Result<
        (Self, BackfillStep<Key, Value>),
        Error,
    >)
        requires
            self@.log_every > 0,
            self@.total < u64::MAX,
            !self@.ended,
        ensures
            match item {
                Ok(Some(entry)) => {
                    &&& r is Ok
                    &&& (r->Ok_0.0@, save_view(r->Ok_0.1.save)) == self@.with_entry(entry)
                    &&& r->Ok_0.1.progress is Some == self@.reports_next()
                    &&& r->Ok_0.1.progress is Some ==> r->Ok_0.1.progress->0 == entry.0.progress()
                },
                Ok(None) => {
                    &&& r is Ok
                    &&& (r->Ok_0.0@, save_view(r->Ok_0.1.save)) == self@.with_end()
                    &&& r->Ok_0.1.progress is None
                },
                Err(error) => r is Err && r->Err_0 == error,
            },
    {
        let mut run = self;
        match item {
            Ok(Some(entry)) => {
                let step = run.backfill(entry);
                Ok((run, step))
            },
            Ok(None) => {
                let save = run.finish();
                Ok((run, BackfillStep { progress: None, save }))
            },
            Err(error) => Err(error),
        }
    }

    /// Go on after a batch was stored. A batch that could not be stored ends the run with its
    /// error, and nothing more is read.
    pub fn saved<Error>(self, outcome: Result<(), Error>) -> (r: Result<Self, Error>)
        ensures
            match outcome {
                Ok(_) => r is Ok && r->Ok_0@ == self@,
                Err(error) => r is Err && r->Err_0 == error,
            },
    {
        match outcome {
            Ok(_) => Ok(self),
            Err(error) => Err(error),
        }
    }
}

/// The batches that are stored while `source` is read, and the entries that are then still
/// waiting.
pub open spec fn fed<T>(source: Seq<T>, storage_threshold: nat) -> (Seq<Seq<T>>, Seq<T>)
    decreases source.len(),
{
    if source.len() == 0 {
        (Seq::empty(), Seq::empty())
    } else {
        let (batches, waiting) = fed(source.drop_last(), storage_threshold);
        let (left, save) = feed(waiting, source.last(), storage_threshold);
        (
            match save {
                Some(batch) => batches.push(batch),
                None => batches,
            },
            left,
        )
    }
}

/// The batches that are stored of all of `source`.
pub open spec fn all_batches<T>(source: Seq<T>, storage_threshold: nat) -> Seq<Seq<T>> {
    let (batches, waiting) = fed(source, storage_threshold);
    match left_over(waiting) {
        Some(batch) => batches.push(batch),
        None => batches,
    }
}

/// The batches that are stored are the source cut in pieces: put together they are the
/// source, entry for entry, in order. Each but the last has exactly as many entries as the
/// threshold says (at least one), and the last has no more, and is not empty.
pub proof fn law_backfill_stores_all<T>(source: Seq<T>, storage_threshold: nat)
    ensures
        all_batches(source, storage_threshold).flatten() == source,
        forall|i: int|
            0 <= i < all_batches(source, storage_threshold).len() - 1 ==> (
            #[trigger] all_batches(source, storage_threshold)[i]).len() == (if storage_threshold
                == 0 {
                1
            } else {
                storage_threshold
            }),
        all_batches(source, storage_threshold).len() > 0 ==> 0 < all_batches(
            source,
            storage_threshold,
        ).last().len() <= (if storage_threshold == 0 {
            1
        } else {
            storage_threshold
        }),
{
    lemma_fed(source, storage_threshold);
    let (batches, waiting) = fed(source, storage_threshold);
    let all = all_batches(source, storage_threshold);
    if waiting.len() > 0 {
        batches.lemma_flatten_push(waiting);
        assert forall|i: int| 0 <= i < all.len() - 1 implies (#[trigger] all[i]).len() == (
        if storage_threshold == 0 {
            1
        } else {
            storage_threshold
        }) by {
            assert(all[i] == batches[i]);
        }
    } else {
        assert(batches.flatten() + waiting =~= batches.flatten());
        if batches.len() > 0 {
            assert(all.last() == batches[batches.len() - 1]);
        }
    }
}

/// While the source is read, what was stored and what is waiting make up what was read.
proof fn lemma_fed<T>(source: Seq<T>, storage_threshold: nat)
    ensures
        fed(source, storage_threshold).0.flatten() + fed(source, storage_threshold).1 == source,
        forall|i: int|
            0 <= i < fed(source, storage_threshold).0.len() ==> (#[trigger] fed(
                source,
                storage_threshold,
            ).0[i]).len() == (if storage_threshold == 0 {
                1
            } else {
                storage_threshold
            }),
        fed(source, storage_threshold).1.len() == 0 || fed(source, storage_threshold).1.len()
            < storage_threshold,
    decreases source.len(),
{
    if source.len() == 0 {
        assert(fed(source, storage_threshold).0.flatten() + fed(source, storage_threshold).1
            =~= source);
    } else {
        lemma_fed(source.drop_last(), storage_threshold);
        let (batches, waiting) = fed(source.drop_last(), storage_threshold);
        let (left, save) = feed(waiting, source.last(), storage_threshold);
        let full = waiting.push(source.last());
        assert(source =~= source.drop_last().push(source.last()));
        assert(batches.flatten() + full =~= source);
        if save is Some {
            batches.lemma_flatten_push(full);
            let now = fed(source, storage_threshold).0;
            assert(now == batches.push(full));
            assert(now.flatten() + left =~= source);
            assert forall|i: int| 0 <= i < now.len() implies (#[trigger] now[i]).len() == (
            if storage_threshold == 0 {
                1
            } else {
                storage_threshold
            }) by {
                if i < batches.len() {
                    assert(now[i] == batches[i]);
                }
            }
        }
    }
}

/// How a run over a source ends.
pub enum BackfillEnd<Error> {
    /// All was read and stored, so many entries.
    Complete(u64),
    /// A read failed.
    ReadFailed(Error),
    /// A batch could not be stored.
    SaveFailed(Error),
}

/// All that a run over a source does.
pub struct BackfillTrace<T, Error> {
    /// The batches that are handed out to be stored, the last of which may have failed.
    pub batches: Seq<Seq<T>>,
    /// How many entries or errors are read from the source.
    pub reads: nat,
    pub end: BackfillEnd<Error>,
}

/// All that a run does with the rest of a source, if storing the batches in turn fails with the
/// error that `saves` has for it, or is done where there is none.
pub open spec fn backfilled<Key, Value, Error>(
    run: BackfillView<Key, Value>,
    source: Seq<Result<(Key, Value), Error>>,
    saves: Seq<Option<Error>>,
) -> BackfillTrace<(Key, Value), Error>
    decreases source.len(),
{
    if source.len() == 0 {
        match run.with_end() {
            (after, Some(batch)) => BackfillTrace {
                batches: seq![batch],
                reads: 0,
                end: match saves[0] {
                    Some(error) => BackfillEnd::SaveFailed(error),
                    None => BackfillEnd::Complete(after.total),
                },
            },
            (after, None) => BackfillTrace {
                batches: Seq::empty(),
                reads: 0,
                end: BackfillEnd::Complete(after.total),
            },
        }
    } else {
        match source[0] {
            Err(error) => BackfillTrace {
                batches: Seq::empty(),
                reads: 1,
                end: BackfillEnd::ReadFailed(error),
            },
            Ok(entry) => match run.with_entry(entry) {
                (after, None) => {
                    let rest = backfilled(after, source.drop_first(), saves);
                    BackfillTrace { reads: rest.reads + 1, ..rest }
                },
                (after, Some(batch)) => match saves[0] {
                    Some(error) => BackfillTrace {
                        batches: seq![batch],
                        reads: 1,
                        end: BackfillEnd::SaveFailed(error),
                    },
                    None => {
                        let rest = backfilled(after, source.drop_first(), saves.drop_first());
                        BackfillTrace {
                            batches: seq![batch] + rest.batches,
                            reads: rest.reads + 1,
                            ..rest
                        }
                    },
                },
            },
        }
    }
}

/// The entries of a source, where reading gives entries.
pub open spec fn read_entries<T, Error>(source: Seq<Result<T, Error>>) -> Seq<T> {
    Seq::new(source.len(), |i: int| source[i]->Ok_0)
}

/// Whether `trace` is how a run goes that comes after entries `before`: see
/// [`law_backfill_ends_at_failure`].
pub open spec fn ends_as_it_should<T, Error>(
    before: Seq<T>,
    source: Seq<Result<T, Error>>,
    saves: Seq<Option<Error>>,
    storage_threshold: nat,
    trace: BackfillTrace<T, Error>,
) -> bool {
    let entries = read_entries(source);
    let handed = fed(before, storage_threshold).0 + trace.batches;
    match trace.end {
        BackfillEnd::Complete(total) => {
            &&& trace.reads == source.len()
            &&& forall|i: int| 0 <= i < source.len() ==> (#[trigger] source[i]) is Ok
            &&& forall|i: int| 0 <= i < trace.batches.len() ==> (#[trigger] saves[i]) is None
            &&& handed == all_batches(before + entries, storage_threshold)
            &&& total == before.len() + source.len()
        },
        BackfillEnd::ReadFailed(error) => {
            &&& 0 < trace.reads <= source.len()
            &&& source[trace.reads - 1] == Err::<T, Error>(error)
            &&& forall|i: int| 0 <= i < trace.reads - 1 ==> (#[trigger] source[i]) is Ok
            &&& forall|i: int| 0 <= i < trace.batches.len() ==> (#[trigger] saves[i]) is None
            &&& handed == fed(before + entries.take(trace.reads - 1), storage_threshold).0
        },
        BackfillEnd::SaveFailed(error) => {
            &&& trace.reads <= source.len()
            &&& forall|i: int| 0 <= i < trace.reads ==> (#[trigger] source[i]) is Ok
            &&& trace.batches.len() > 0
            &&& saves[trace.batches.len() - 1] == Some(error)
            &&& forall|i: int| 0 <= i < trace.batches.len() - 1 ==> (#[trigger] saves[i]) is None
            &&& handed == fed(before + entries.take(trace.reads as int), storage_threshold).0 || (
            trace.reads == source.len() && handed == all_batches(
                before + entries,
                storage_threshold,
            ))
        },
    }
}

/// One entry more in front of a run that goes as it should: it fills a batch, which is stored, if
/// `save` is one.
#[verifier::spinoff_prover]
proof fn lemma_one_entry_more<T, Error>(
    before: Seq<T>,
    source: Seq<Result<T, Error>>,
    saves: Seq<Option<Error>>,
    storage_threshold: nat,
    save: Option<Seq<T>>,
    then: BackfillTrace<T, Error>,
    trace: BackfillTrace<T, Error>,
)
    requires
        source.len() > 0,
        source[0] is Ok,
        saves.len() > source.len(),
        save is Some ==> saves[0] is None,
        then.batches.len() <= source.len(),
        fed(before.push(source[0]->Ok_0), storage_threshold).0 == (match save {
            Some(batch) => fed(before, storage_threshold).0.push(batch),
            None => fed(before, storage_threshold).0,
        }),
        trace.batches == (match save {
            Some(batch) => seq![batch] + then.batches,
            None => then.batches,
        }),
        trace.reads == then.reads + 1,
        trace.end == then.end,
        ends_as_it_should(
            before.push(source[0]->Ok_0),
            source.drop_first(),
            if save is Some {
                saves.drop_first()
            } else {
                saves
            },
            storage_threshold,
            then,
        ),
    ensures
        ends_as_it_should(before, source, saves, storage_threshold, trace),
{
    let rest = source.drop_first();
    let left = if save is Some {
        saves.drop_first()
    } else {
        saves
    };
    let skipped: int = if save is Some {
        1
    } else {
        0
    };
    let now = before.push(source[0]->Ok_0);
    let entries = read_entries(source);
    let others = read_entries(rest);
    let batches = fed(before, storage_threshold).0;
    assert(batches + trace.batches =~= fed(now, storage_threshold).0 + then.batches);
    assert(now + others =~= before + entries);
    assert(trace.batches.len() == then.batches.len() + skipped);
    let stored = match trace.end {
        BackfillEnd::SaveFailed(_) => trace.batches.len() - 1,
        _ => trace.batches.len() as int,
    };
    assert forall|i: int| 0 <= i < stored implies (#[trigger] saves[i]) is None by {
        if i >= skipped {
            assert(left[i - skipped] is None);
        }
    }
    let good = match trace.end {
        BackfillEnd::ReadFailed(_) => trace.reads - 1,
        _ => trace.reads as int,
    };
    assert forall|i: int| 0 <= i < good implies (#[trigger] source[i]) is Ok by {
        if i > 0 {
            assert(rest[i - 1] is Ok);
        }
    }
    match trace.end {
        BackfillEnd::Complete(_) => {},
        BackfillEnd::ReadFailed(error) => {
            assert(rest[then.reads - 1] == source[trace.reads - 1]);
            assert(now + others.take(then.reads - 1) =~= before + entries.take(trace.reads - 1));
        },
        BackfillEnd::SaveFailed(error) => {
            assert(left[then.batches.len() - 1] == saves[trace.batches.len() - 1]);
            assert(now + others.take(then.reads as int) =~= before + entries.take(
                trace.reads as int,
            ));
        },
    }
}

/// What a run does after some entries were read.
proof fn lemma_backfilled<Key, Value, Error>(
    run: BackfillView<Key, Value>,
    before: Seq<(Key, Value)>,
    source: Seq<Result<(Key, Value), Error>>,
    saves: Seq<Option<Error>>,
)
    requires
        run.waiting == fed(before, run.storage_every as nat).1,
        run.total == before.len(),
        before.len() + source.len() <= u64::MAX,
        saves.len() > source.len(),
    ensures
        ends_as_it_should(
            before,
            source,
            saves,
            run.storage_every as nat,
            backfilled(run, source, saves),
        ),
        backfilled(run, source, saves).batches.len() <= source.len() + 1,
    decreases source.len(),
{
    let threshold = run.storage_every as nat;
    let trace = backfilled(run, source, saves);
    let entries = read_entries(source);
    let batches = fed(before, threshold).0;
    if source.len() == 0 {
        assert(before + entries =~= before);
        assert(before + entries.take(0) =~= before);
        assert(batches + Seq::<Seq<(Key, Value)>>::empty() =~= batches);
        if run.waiting.len() > 0 {
            assert(batches + seq![run.waiting] =~= batches.push(run.waiting));
        }
    } else if source[0] is Err {
        assert(before + entries.take(0) =~= before);
        assert(batches + Seq::<Seq<(Key, Value)>>::empty() =~= batches);
    } else {
        let entry = source[0]->Ok_0;
        let (after, save) = run.with_entry(entry);
        let now = before.push(entry);
        assert(now.drop_last() =~= before);
        if save is Some && saves[0] is Some {
            assert(before + entries.take(1) =~= now);
            assert(batches + seq![save->0] =~= batches.push(save->0));
        } else {
            let rest = source.drop_first();
            let left = if save is Some {
                saves.drop_first()
            } else {
                saves
            };
            lemma_backfilled(after, now, rest, left);
            lemma_one_entry_more(
                before,
                source,
                saves,
                threshold,
                save,
                backfilled(after, rest, left),
                trace,
            );
        }
    }
}

/// A run ends at its first failure. If nothing fails, all is read and stored in batches, and the
/// count is that of the entries. If a read fails, its error is returned and nothing more is read:
/// the batches that were full by then are stored, and what is waiting is not. If a batch cannot be
/// stored, its error is returned, and nothing is read or stored after it; what was stored before
/// stays.
pub proof fn law_backfill_ends_at_failure<Key, Value, Error>(
    storage_every: usize,
    log_every: usize,
    source: Seq<Result<(Key, Value), Error>>,
    saves: Seq<Option<Error>>,
)
    requires
        source.len() <= u64::MAX,
        saves.len() > source.len(),
    ensures
        ends_as_it_should(
            Seq::empty(),
            source,
            saves,
            storage_every as nat,
            backfilled(
                BackfillView::<Key, Value>::fresh(storage_every, log_every),
                source,
                saves,
            ),
        ),
{
    lemma_backfilled(
        BackfillView::<Key, Value>::fresh(storage_every, log_every),
        Seq::empty(),
        source,
        saves,
    );
}

/// A step of a walk over a table with several values to a key.
#[derive(Debug)]
pub enum DupStep<Key, Value, Error> {
    /// Hand this out.
    Yield(Result<(Key, Value), Error>),
    /// Move to the next key.
    NextKey,
    /// Seek the first value of this key.
    Seek(Key),
    /// There is nothing more.
    End,
}

/// How the walk goes on with the next value of the same key: it is handed out, or the walk moves
/// to the next key if there is none.
pub open spec fn next_dup_step<Key, Value, Error>(
    found: Result<Option<(Key, Value)>, Error>,
) -> DupStep<Key, Value, Error> {
    match found {
        Ok(Some(entry)) => DupStep::Yield(Ok(entry)),
        Ok(None) => DupStep::NextKey,
        Err(error) => DupStep::Yield(Err(error)),
    }
}

/// How the walk goes on with the next key: its first value is sought. With no next key the walk
/// ends. An error in looking for it ends the walk too, as if the table were done.
pub open spec fn next_no_dup_step<Key, Value, Error>(
    found: Result<Option<(Key, Value)>, Error>,
) -> DupStep<Key, Value, Error> {
    match found {
        Ok(Some((key, _))) => DupStep::Seek(key),
        _ => DupStep::End,
    }
}

/// How the walk goes on with what was sought: it is handed out, or the walk ends.
pub open spec fn seek_step<Key, Value, Error>(
    found: Result<Option<(Key, Value)>, Error>,
) -> DupStep<Key, Value, Error> {
    match found {
        Ok(Some(entry)) => DupStep::Yield(Ok(entry)),
        Ok(None) => DupStep::End,
        Err(error) => DupStep::Yield(Err(error)),
    }
}

/// Go on after the next value of the same key is known.
pub fn after_next_dup<Key, Value, Error>(found: Result<Option<(Key, Value)>, Error>) -> (r: DupStep<
    Key,
    Value,
    Error,
>)
    ensures
        r == next_dup_step(found),
{
    match found {
        Ok(Some(entry)) => DupStep::Yield(Ok(entry)),
        Ok(None) => DupStep::NextKey,
        Err(error) => DupStep::Yield(Err(error)),
    }
}

/// Go on after the next key is known.
pub fn after_next_no_dup<Key, Value, Error>(found: Result<Option<(Key, Value)>, Error>) -> (r:
    DupStep<Key, Value, Error>)
    ensures
        r == next_no_dup_step(found),
{
    match found {
        Ok(Some((key, _))) => DupStep::Seek(key),
        _ => DupStep::End,
    }
}

/// Go on after what was sought is known.
pub fn after_seek<Key, Value, Error>(found: Result<Option<(Key, Value)>, Error>) -> (r: DupStep<
    Key,
    Value,
    Error,
>)
    ensures
        r == seek_step(found),
{
    match found {
        Ok(Some(entry)) => DupStep::Yield(Ok(entry)),
        Ok(None) => DupStep::End,
        Err(error) => DupStep::Yield(Err(error)),
    }
}

/// Whether the values of a key stand together.
pub open spec fn grouped<Key, Value>(rows: Seq<(Key, Value)>) -> bool {
    forall|i: int, j: int, k: int|
        #![trigger rows[i], rows[j], rows[k]]
        0 <= i < j < k < rows.len() && rows[i].0 == rows[k].0 ==> rows[j].0 == rows[i].0
}

/// A cursor over a table with several values to a key. It stands at a row, or before the first.
pub struct DupCursorView<Key, Value> {
    pub rows: Seq<(Key, Value)>,
    /// The row at which it stands, or -1.
    pub at: int,
    /// Whether it takes the first row for the next value of the same key where it stands before
    /// the first row.
    pub starts_at_first: bool,
}

/// The first row from `from` on whose key is another, or the number of rows.
pub open spec fn other_key_from<Key, Value>(rows: Seq<(Key, Value)>, key: Key, from: int) -> int
    decreases rows.len() - from,
{
    if from >= rows.len() || rows[from].0 != key {
        from
    } else {
        other_key_from(rows, key, from + 1)
    }
}

/// The first row from `from` on with a key, or the number of rows.
pub open spec fn key_from<Key, Value>(rows: Seq<(Key, Value)>, key: Key, from: int) -> int
    decreases rows.len() - from,
{
    if from >= rows.len() || rows[from].0 == key {
        from
    } else {
        key_from(rows, key, from + 1)
    }
}

impl<Key, Value> DupCursorView<Key, Value> {
    /// Whether the cursor stands at a row of its table, or before the first.
    pub open spec fn wf(self) -> bool {
        &&& grouped(self.rows)
        &&& -1 <= self.at < self.rows.len()
    }

    /// The cursor at a row, and the row. It stays where there is no such row.
    pub open spec fn moved(self, to: int) -> (Self, Option<(Key, Value)>) {
        if 0 <= to < self.rows.len() {
            (DupCursorView { at: to, ..self }, Some(self.rows[to]))
        } else {
            (self, None)
        }
    }

    /// The next value of the same key.
    pub open spec fn next_dup(self) -> (Self, Option<(Key, Value)>) {
        if self.at < 0 {
            if self.starts_at_first {
                self.moved(0)
            } else {
                (self, None)
            }
        } else if self.at + 1 < self.rows.len() && self.rows[self.at + 1].0 == self.rows[self.at].0 {
            self.moved(self.at + 1)
        } else {
            (self, None)
        }
    }

    /// The first value of the next key.
    pub open spec fn next_no_dup(self) -> (Self, Option<(Key, Value)>) {
        if self.at < 0 {
            self.moved(0)
        } else {
            self.moved(other_key_from(self.rows, self.rows[self.at].0, self.at))
        }
    }

    /// The first value of a key that is in the table.
    pub open spec fn seek(self, key: Key) -> (Self, Option<(Key, Value)>) {
        self.moved(key_from(self.rows, key, 0))
    }

    /// What a walk hands out next, by its three steps, and the cursor then.
    pub open spec fn walk(self) -> (Self, Option<(Key, Value)>) {
        let (first, value) = self.next_dup();
        match next_dup_step(Ok::<_, ()>(value)) {
            DupStep::Yield(Ok(entry)) => (first, Some(entry)),
            DupStep::NextKey => {
                let (second, next) = first.next_no_dup();
                match next_no_dup_step(Ok::<_, ()>(next)) {
                    DupStep::Seek(key) => {
                        let (third, sought) = second.seek(key);
                        match seek_step(Ok::<_, ()>(sought)) {
                            DupStep::Yield(Ok(entry)) => (third, Some(entry)),
                            _ => (third, None),
                        }
                    },
                    _ => (second, None),
                }
            },
            _ => (first, None),
        }
    }

    /// What a walk hands out until there is nothing more, or `fuel` times.
    pub open spec fn walked(self, fuel: nat) -> Seq<(Key, Value)>
        decreases fuel,
    {
        if fuel == 0 {
            Seq::empty()
        } else {
            match self.walk() {
                (next, Some(entry)) => seq![entry] + next.walked((fuel - 1) as nat),
                (_, None) => Seq::empty(),
            }
        }
    }
}

/// The first row from some row on with its own key.
proof fn lemma_key_from<Key, Value>(rows: Seq<(Key, Value)>, from: int, to: int)
    requires
        0 <= from <= to < rows.len(),
        forall|i: int| from <= i < to ==> (#[trigger] rows[i]).0 != rows[to].0,
    ensures
        key_from(rows, rows[to].0, from) == to,
    decreases to - from,
{
    if from < to {
        lemma_key_from(rows, from + 1, to);
    }
}

/// A walk hands out the row after the one at which the cursor stands, and nothing after the
/// last one, if no read of the table fails.
pub proof fn law_dup_walk_step<Key, Value>(cursor: DupCursorView<Key, Value>)
    requires
        cursor.wf(),
    ensures
        cursor.at + 1 < cursor.rows.len() ==> cursor.walk() == (
            DupCursorView { at: cursor.at + 1, ..cursor },
            Some(cursor.rows[cursor.at + 1]),
        ),
        cursor.at + 1 == cursor.rows.len() ==> cursor.walk().1 is None,
{
    let rows = cursor.rows;
    let at = cursor.at;
    reveal_with_fuel(other_key_from, 2);
    if at + 1 < rows.len() && cursor.next_dup().1 is None {
        if at >= 0 {
            assert(other_key_from(rows, rows[at].0, at) == at + 1);
        }
        assert forall|i: int| 0 <= i < at + 1 implies (#[trigger] rows[i]).0 != rows[at + 1].0 by {
            if i < at && rows[i].0 == rows[at + 1].0 {
                assert(rows[at].0 == rows[i].0);
            }
        }
        lemma_key_from(rows, 0, at + 1);
    }
}

/// A walk over a table with several values to a key hands out every row after the one at which
/// the cursor stands, once and in order, and then ends, if no read of the table fails.
pub proof fn law_dup_walk_complete<Key, Value>(cursor: DupCursorView<Key, Value>, fuel: nat)
    requires
        cursor.wf(),
        fuel >= cursor.rows.len() - cursor.at,
    ensures
        cursor.walked(fuel) == cursor.rows.skip(cursor.at + 1),
    decreases fuel,
{
    let rows = cursor.rows;
    let at = cursor.at;
    law_dup_walk_step(cursor);
    if at + 1 < rows.len() {
        let next = DupCursorView { at: at + 1, ..cursor };
        law_dup_walk_complete(next, (fuel - 1) as nat);
        assert(seq![rows[at + 1]] + rows.skip(at + 2) =~= rows.skip(at + 1));
    } else {
        assert(rows.skip(at + 1) =~= Seq::empty());
    }
}

/// The entry of a branch that was there from the start: at block 0, whatever the block that
/// the store starts from.
pub open spec fn initial_entry(
    hashed_address: Option<Seq<u8>>,
    path: Seq<u8>,
    branch: BranchView,
) -> EntryView {
    EntryView { block_number: 0, path, hashed_address, branch: Some(branch) }
}

/// A branch of a storage trie, with its path.
#[derive(Debug, PartialEq, Eq)]
pub struct StorageTrieEntry {
    pub nibbles: Nibbles,
    pub node: BranchNodeCompact,
}

/// A part of the first filling.
#[derive(Debug, Clone, Copy, PartialEq, Eq)]
pub enum BackfillStage {
    HashedAccounts,
    HashedStorage,
    StoragesTrie,
    AccountsTrie,
    /// Mark the store as filled from this block on.
    SetEarliest { block_number: u64, hash: B256 },
}

/// What there is to do: nothing if the store has an earliest block already, else everything, the
/// leaves first, then the tries, and the earliest block, which is the best one, last of all.
pub open spec fn backfill_stages(
    earliest: Option<(u64, B256)>,
    best_number: u64,
    best_hash: B256,
) -> Seq<BackfillStage> {
    match earliest {
        Some(_) => Seq::empty(),
        None => seq![
            BackfillStage::HashedAccounts,
            BackfillStage::HashedStorage,
            BackfillStage::StoragesTrie,
            BackfillStage::AccountsTrie,
            BackfillStage::SetEarliest { block_number: best_number, hash: best_hash },
        ],
    }
}

/// The first filling, part by part. A part that fails ends it.
#[derive(Debug)]
pub struct StageRun {
    stages: Vec<BackfillStage>,
}

impl View for StageRun {
    type V = Seq<BackfillStage>;

    /// The parts that are still to be done, in order.
    closed spec fn view(&self) -> Seq<BackfillStage> {
        self.stages@
    }
}

impl StageRun {
    /// The part to do next, if any is left.
    pub fn stage(&self) -> (r: Option<BackfillStage>)
        ensures
            r == (if self@.len() > 0 {
                Some(self@[0])
            } else {
                None
            }),
    {
        if self.stages.len() > 0 {
            Some(self.stages[0])
        } else {
            None
        }
    }

    /// Go on after that part was done, or failed.
    pub fn finished<Error>(self, outcome: Result<(), Error>) -> (r: Result<Self, Error>)
        requires
            self@.len() > 0,
        ensures
            match outcome {
                Ok(_) => r is Ok && r->Ok_0@ == self@.drop_first(),
                Err(error) => r is Err && r->Err_0 == error,
            },
    {
        match outcome {
            Ok(_) => {
                let mut stages = self.stages;
                let ghost before = stages@;
                stages.remove(0);
                assert(stages@ =~= before.drop_first());
                Ok(Self { stages })
            },
            Err(error) => Err(error),
        }
    }
}

/// The store is marked only when its parts are done. If no part fails, the filling does all of
/// them in order, the mark last of all, once, with the best block, and succeeds. If a part fails,
/// its error is returned and nothing after it is done, so that without the leaves and the tries
/// there is no mark. A store that is marked already is left as it is.
///
/// A part is done when its table has been walked to the end. An error in looking for the next key
/// of a table with several values to a key counts as that end, see [`next_no_dup_step`], and does
/// not keep the store from being marked.
pub proof fn law_marked_after_all_parts<Error>(
    earliest: Option<(u64, B256)>,
    best_number: u64,
    best_hash: B256,
    outcomes: Seq<Option<Error>>,
)
    requires
        outcomes.len() >= backfill_stages(earliest, best_number, best_hash).len(),
    ensures
        ({
            let stages = backfill_stages(earliest, best_number, best_hash);
            let ended = crate::steps::until_failure(stages, outcomes);
            &&& crate::steps::ends_at_failure(stages, outcomes, ended)
            &&& match ended {
                Some((done, Ok(_))) => {
                    &&& earliest is Some ==> done.len() == 0
                    &&& earliest is None ==> forall|i: int|
                        0 <= i < done.len() ==> ((#[trigger] done[i]) is SetEarliest <==> i
                            == done.len() - 1)
                    &&& earliest is None ==> done.last() == (BackfillStage::SetEarliest {
                        block_number: best_number,
                        hash: best_hash,
                    })
                },
                Some((done, Err(_))) => {
                    &&& earliest is None
                    &&& forall|i: int|
                        0 <= i < done.len() ==> ((#[trigger] done[i]) is SetEarliest ==> i
                            == stages.len() - 1)
                },
                None => false,
            }
        }),
{
    crate::steps::law_until_failure(
        backfill_stages(earliest, best_number, best_hash),
        outcomes,
    );
}

/// Account leaves as they are stored.
#[derive(Debug, PartialEq, Eq)]
pub struct AccountLeaves {
    /// The block at which they are stored.
    pub block_number: u64,
    pub accounts: Vec<(B256, Option<Account>)>,
}

/// Storage leaves as they are stored, each with the hashed address of its account.
#[derive(Debug, PartialEq, Eq)]
pub struct StorageLeaves {
    /// The block at which they are stored.
    pub block_number: u64,
    pub storages: Vec<(B256, StorageEntry)>,
}

/// The first filling of `storage` from the transaction `tx`.
#[derive(Debug)]
pub struct BackfillJob<'a, Tx, S> {
    pub storage: S,
    pub tx: &'a Tx,
}

impl<'a, Tx, S> BackfillJob<'a, Tx, S> {
    pub fn new(storage: S, tx: &'a Tx) -> (r: Self)
        ensures
            r.storage == storage,
            r.tx == tx,
    {
        Self { storage, tx }
    }

    /// Start the filling, given the earliest block of the store, if it has one, and the best
    /// block of the chain.
    pub fn run(
        &self,
        earliest: &Option<(u64, B256)>,
        best_number: u64,
        best_hash: B256,
    ) -> (r: StageRun)
        ensures
            r@ == backfill_stages(*earliest, best_number, best_hash),
    {
        let mut stages: Vec<BackfillStage> = Vec::new();
        if earliest.is_none() {
            stages.push(BackfillStage::HashedAccounts);
            stages.push(BackfillStage::HashedStorage);
            stages.push(BackfillStage::StoragesTrie);
            stages.push(BackfillStage::AccountsTrie);
            stages.push(
                BackfillStage::SetEarliest { block_number: best_number, hash: best_hash },
            );
        }
        assert(stages@ =~= backfill_stages(*earliest, best_number, best_hash));
        StageRun { stages }
    }

    /// What is stored of account leaves, at block 0: none is deleted.
    pub fn backfill_hashed_accounts(&self, entries: Vec<(B256, Account)>) -> (r: AccountLeaves)
        ensures
            r.block_number == 0,
            r.accounts@ == Seq::new(entries@.len(), |i: int| (entries@[i].0, Some(entries@[i].1))),
    {
        let mut leaves: Vec<(B256, Option<Account>)> = Vec::new();
        let ghost all = Seq::new(entries@.len(), |i: int| (entries@[i].0, Some(entries@[i].1)));
        let mut i: usize = 0;
        while i < entries.len()
            invariant
                i <= entries@.len(),
                all == Seq::new(entries@.len(), |i: int| (entries@[i].0, Some(entries@[i].1))),
                leaves@ =~= all.take(i as int),
            decreases entries@.len() - i,
        {
            let (address, account) = entries[i];
            leaves.push((address, Some(account)));
            i += 1;
        }
        assert(leaves@ =~= all);
        AccountLeaves { block_number: 0, accounts: leaves }
    }

    /// What is stored of storage leaves, at block 0.
    pub fn backfill_hashed_storage(&self, entries: Vec<(B256, StorageEntry)>) -> (r: StorageLeaves)
        ensures
            r.block_number == 0,
            r.storages@ == entries@,
    {
        StorageLeaves { block_number: 0, storages: entries }
    }

    /// What is stored of state trie branches.
    pub fn backfill_accounts_trie(&self, entries: &Vec<(Nibbles, BranchNodeCompact)>) -> (r: TrieBranchesBatch)
        ensures
            r.block_number == 0,
            r.wf(),
            r.items@.len() == entries@.len(),
            forall|i: int|
                #![trigger r.items@[i]]
                0 <= i < entries@.len() ==> {
                    &&& r.items@[i].block_number == 0
                    &&& r.items@[i].hashed_address is None
                    &&& r.items@[i].path@ == entries@[i].0@
                    &&& r.items@[i].branch is Some
                    &&& r.items@[i].branch->0.state_mask == entries@[i].1.state_mask
                    &&& r.items@[i].branch->0.tree_mask == entries@[i].1.tree_mask
                    &&& r.items@[i].branch->0.hash_mask == entries@[i].1.hash_mask
                    &&& r.items@[i].branch->0.hashes@ == entries@[i].1.hashes@
                    &&& r.items@[i].branch->0.root_hash == entries@[i].1.root_hash
                    &&& r.items@[i].branch->0@ == entries@[i].1@
                },
            crate::storage::entries_view(r.items@) == Seq::new(
                entries@.len(),
                |i: int| initial_entry(None, entries@[i].0@, entries@[i].1@),
            ),
    {
        let mut items: Vec<PreimageEntry> = Vec::new();
        let mut i: usize = 0;
        while i < entries.len()
            invariant
                i <= entries@.len(),
                items@.len() == i,
                forall|j: int|
                    #![trigger items@[j]]
                    0 <= j < i ==> {
                        &&& items@[j].block_number == 0
                        &&& items@[j].hashed_address is None
                        &&& items@[j].path@ == entries@[j].0@
                        &&& items@[j].branch is Some
                        &&& items@[j].branch->0.state_mask == entries@[j].1.state_mask
                        &&& items@[j].branch->0.tree_mask == entries@[j].1.tree_mask
                        &&& items@[j].branch->0.hash_mask == entries@[j].1.hash_mask
                        &&& items@[j].branch->0.hashes@ == entries@[j].1.hashes@
                        &&& items@[j].branch->0.root_hash == entries@[j].1.root_hash
                        &&& items@[j].branch->0@ == entries@[j].1@
                    },
                forall|j: int|
                    0 <= j < i ==> (#[trigger] items@[j])@ == initial_entry(
                        None,
                        entries@[j].0@,
                        entries@[j].1@,
                    ),
            decreases entries@.len() - i,
        {
            let (path, branch) = &entries[i];
            items.push(
                PreimageEntry {
                    block_number: 0,
                    path: path.clone(),
                    hashed_address: None,
                    branch: Some(branch.clone()),
                },
            );
            i += 1;
        }
        assert forall|j: int| 0 <= j < items@.len() implies (#[trigger] items@[j]).block_number
            == 0 by {
            assert(items@[j]@.block_number == 0);
        }
        assert(crate::storage::entries_view(items@) =~= Seq::new(
            entries@.len(),
            |i: int| initial_entry(None, entries@[i].0@, entries@[i].1@),
        ));
        TrieBranchesBatch { block_number: 0, items }
    }

    /// What is stored of storage trie branches.
    pub fn backfill_storages_trie(&self, entries: &Vec<(B256, StorageTrieEntry)>) -> (r: TrieBranchesBatch)
        ensures
            r.block_number == 0,
            r.wf(),
            r.items@.len() == entries@.len(),
            forall|i: int|
                #![trigger r.items@[i]]
                0 <= i < entries@.len() ==> {
                    &&& r.items@[i].block_number == 0
                    &&& r.items@[i].hashed_address is Some
                    &&& r.items@[i].hashed_address->0@ == entries@[i].0@
                    &&& r.items@[i].path@ == entries@[i].1.nibbles@
                    &&& r.items@[i].branch is Some
                    &&& r.items@[i].branch->0.state_mask == entries@[i].1.node.state_mask
                    &&& r.items@[i].branch->0.tree_mask == entries@[i].1.node.tree_mask
                    &&& r.items@[i].branch->0.hash_mask == entries@[i].1.node.hash_mask
                    &&& r.items@[i].branch->0.hashes@ == entries@[i].1.node.hashes@
                    &&& r.items@[i].branch->0.root_hash == entries@[i].1.node.root_hash
                    &&& r.items@[i].branch->0@ == entries@[i].1.node@
                },
            crate::storage::entries_view(r.items@) == Seq::new(
                entries@.len(),
                |i: int|
                    initial_entry(
                        Some(entries@[i].0@),
                        entries@[i].1.nibbles@,
                        entries@[i].1.node@,
                    ),
            ),
    {
        let mut items: Vec<PreimageEntry> = Vec::new();
        let mut i: usize = 0;
        while i < entries.len()
            invariant
                i <= entries@.len(),
                items@.len() == i,
                forall|j: int|
                    #![trigger items@[j]]
                    0 <= j < i ==> {
                        &&& items@[j].block_number == 0
                        &&& items@[j].hashed_address is Some
                        &&& items@[j].hashed_address->0@ == entries@[j].0@
                        &&& items@[j].path@ == entries@[j].1.nibbles@
                        &&& items@[j].branch is Some
                        &&& items@[j].branch->0.state_mask == entries@[j].1.node.state_mask
                        &&& items@[j].branch->0.tree_mask == entries@[j].1.node.tree_mask
                        &&& items@[j].branch->0.hash_mask == entries@[j].1.node.hash_mask
                        &&& items@[j].branch->0.hashes@ == entries@[j].1.node.hashes@
                        &&& items@[j].branch->0.root_hash == entries@[j].1.node.root_hash
                        &&& items@[j].branch->0@ == entries@[j].1.node@
                    },
                forall|j: int|
                    0 <= j < i ==> (#[trigger] items@[j])@ == initial_entry(
                        Some(entries@[j].0@),
                        entries@[j].1.nibbles@,
                        entries@[j].1.node@,
                    ),
            decreases entries@.len() - i,
        {
            let (hashed_address, entry) = &entries[i];
            items.push(
                PreimageEntry {
                    block_number: 0,
                    path: entry.nibbles.clone(),
                    hashed_address: Some(*hashed_address),
                    branch: Some(entry.node.clone()),
                },
            );
            i += 1;
        }
        assert forall|j: int| 0 <= j < items@.len() implies (#[trigger] items@[j]).block_number
            == 0 by {
            assert(items@[j]@.block_number == 0);
        }
        assert(crate::storage::entries_view(items@) =~= Seq::new(
            entries@.len(),
            |i: int|
                initial_entry(Some(entries@[i].0@), entries@[i].1.nibbles@, entries@[i].1.node@),
        ));
        TrieBranchesBatch { block_number: 0, items }
    }
}

/// What is filled in at the start is read at every block: each branch is seen by the readers
/// of any block, as long as nothing else is stored at its path.
pub proof fn law_backfill_is_read_back(
    table: crate::table::Table,
    entries: Seq<EntryView>,
    i: int,
    max_block_number: u64,
)
    requires
        0 <= i < entries.len(),
        forall|j: int|
            0 <= j < entries.len() ==> crate::table::entry_wf(#[trigger] entries[j])
                && entries[j].block_number == 0,
        forall|j: int|
            0 <= j < entries.len() && (#[trigger] entries[j]).hashed_address
                == entries[i].hashed_address && entries[j].path == entries[i].path ==> j == i,
        forall|block: i64|
            block > 0 ==> !#[trigger] table.contains_key(
                (crate::key::key_bytes(entries[i].hashed_address, entries[i].path), block),
            ),
    ensures
        match crate::table::visible(
            crate::table::put_all(table, crate::sqlite::rows_of(entries)),
            entries[i].hashed_address,
            entries[i].path,
            crate::key::block_int(max_block_number),
        ) {
            Some(bytes) => entries[i].branch == Some(crate::branch::branch_of(bytes)),
            None => entries[i].branch is None,
        },
{
    assert(entries.contains(entries[i]));
    crate::table::law_read_what_batch_stored(table, entries, entries[i], max_block_number);
}

/// What the first filling stores of the state trie is read as it was in the source: a cursor over
/// the state trie that seeks the path of a branch of the source exactly reads that very branch, at
/// whatever block, as long as nothing else is stored at its path.
pub proof fn law_filled_state_branch_is_read(
    table: crate::table::Table,
    source: Seq<(Nibbles, BranchNodeCompact)>,
    batch: TrieBranchesBatch,
    i: int,
    cursor: crate::cursor::CursorView,
    fuel: nat,
)
    requires
        batch.block_number == 0,
        batch.items@.len() == source.len(),
        forall|j: int|
            #![trigger batch.items@[j]]
            0 <= j < source.len() ==> batch.items@[j].hashed_address is None
                && batch.items@[j].path@ == source[j].0@ && batch.items@[j].branch is Some
                && batch.items@[j].branch->0.state_mask == source[j].1.state_mask
                && batch.items@[j].branch->0.tree_mask == source[j].1.tree_mask
                && batch.items@[j].branch->0.hash_mask == source[j].1.hash_mask
                && batch.items@[j].branch->0.hashes@ == source[j].1.hashes@
                && batch.items@[j].branch->0.root_hash == source[j].1.root_hash,
        0 <= i < source.len(),
        forall|j: int|
            0 <= j < source.len() ==> crate::primitives::valid_path((#[trigger] source[j]).0@)
                && source[j].1@.wf(),
        forall|j: int| 0 <= j < source.len() && (#[trigger] source[j]).0@ == source[i].0@ ==> j == i,
        crate::table::table_wf(table),
        forall|block: i64|
            block > 0 ==> !#[trigger] table.contains_key(
                (crate::key::key_bytes(None::<Seq<u8>>, source[i].0@), block),
            ),
        cursor.hashed_address is None,
        fuel >= 1,
    ensures
        crate::table::drive(
            crate::table::put_all(
                table,
                crate::sqlite::rows_of(crate::storage::batch_entries(batch)),
            ),
            cursor,
            cursor.latest_step(source[i].0@, true),
            fuel,
        ) == Some(
            (
                cursor.at(source[i].0@),
                Ok::<_, crate::storage::ErrorView>(Some((source[i].0@, source[i].1@))),
            ),
        ),
{
    let entries = crate::storage::batch_entries(batch);
    let after = crate::table::put_all(table, crate::sqlite::rows_of(entries));
    assert forall|j: int| 0 <= j < entries.len() implies crate::table::entry_wf(
        #[trigger] entries[j],
    ) && entries[j].block_number == 0 && entries[j].path == source[j].0@ && entries[j].branch == Some(
        source[j].1@,
    ) by {
        assert(batch.items@[j].path@ == source[j].0@);
        assert(batch.items@[j].branch->0@ =~= source[j].1@);
    }
    assert forall|j: int|
        0 <= j < entries.len() && (#[trigger] entries[j]).hashed_address
            == entries[i].hashed_address && entries[j].path == entries[i].path implies j == i by {
        assert(batch.items@[j].path@ == source[j].0@);
        assert(batch.items@[i].path@ == source[i].0@);
    }
    assert(entries[i].path == source[i].0@);
    assert(batch.items@[i].path@ == source[i].0@);
    assert(entries[i].hashed_address == None::<Seq<u8>>);
    law_backfill_is_read_back(table, entries, i, cursor.max_block_number);
    crate::table::law_batch_keeps_table(table, entries);
    crate::table::law_seek_exact(after, cursor, source[i].0@, fuel);
}

/// What the first filling stores of storage tries is read as it was in the source: a cursor over
/// the storage trie of an account that seeks the path of a branch of the source exactly reads that
/// very branch, at whatever block, as long as nothing else is stored at its path.
pub proof fn law_filled_storage_branch_is_read(
    table: crate::table::Table,
    source: Seq<(B256, StorageTrieEntry)>,
    batch: TrieBranchesBatch,
    i: int,
    cursor: crate::cursor::CursorView,
    fuel: nat,
)
    requires
        batch.block_number == 0,
        batch.items@.len() == source.len(),
        forall|j: int|
            #![trigger batch.items@[j]]
            0 <= j < source.len() ==> batch.items@[j].hashed_address is Some && batch.items@[j].hashed_address->0@
                == source[j].0@
                && batch.items@[j].path@ == source[j].1.nibbles@ && batch.items@[j].branch is Some
                && batch.items@[j].branch->0.state_mask == source[j].1.node.state_mask
                && batch.items@[j].branch->0.tree_mask == source[j].1.node.tree_mask
                && batch.items@[j].branch->0.hash_mask == source[j].1.node.hash_mask
                && batch.items@[j].branch->0.hashes@ == source[j].1.node.hashes@
                && batch.items@[j].branch->0.root_hash == source[j].1.node.root_hash,
        0 <= i < source.len(),
        forall|j: int|
            0 <= j < source.len() ==> crate::primitives::valid_path((#[trigger] source[j]).1.nibbles@)
                && source[j].1.node@.wf(),
        forall|j: int| 0 <= j < source.len() && (#[trigger] source[j]).0@ == source[i].0@ && source[j].1.nibbles@
                == source[i].1.nibbles@ ==> j == i,
        crate::table::table_wf(table),
        forall|block: i64|
            block > 0 ==> !#[trigger] table.contains_key(
                (crate::key::key_bytes(Some(source[i].0@), source[i].1.nibbles@), block),
            ),
        cursor.hashed_address == Some(source[i].0@),
        fuel >= 1,
    ensures
        crate::table::drive(
            crate::table::put_all(
                table,
                crate::sqlite::rows_of(crate::storage::batch_entries(batch)),
            ),
            cursor,
            cursor.latest_step(source[i].1.nibbles@, true),
            fuel,
        ) == Some(
            (
                cursor.at(source[i].1.nibbles@),
                Ok::<_, crate::storage::ErrorView>(Some((source[i].1.nibbles@, source[i].1.node@))),
            ),
        ),
{
    let entries = crate::storage::batch_entries(batch);
    let after = crate::table::put_all(table, crate::sqlite::rows_of(entries));
    assert forall|j: int| 0 <= j < entries.len() implies crate::table::entry_wf(
        #[trigger] entries[j],
    ) && entries[j].block_number == 0 && entries[j].path == source[j].1.nibbles@ && entries[j].branch == Some(
        source[j].1.node@,
    ) by {
        assert(batch.items@[j].path@ == source[j].1.nibbles@);
        assert(batch.items@[j].branch->0@ =~= source[j].1.node@);
    }
    assert forall|j: int|
        0 <= j < entries.len() && (#[trigger] entries[j]).hashed_address
            == entries[i].hashed_address && entries[j].path == entries[i].path implies j == i by {
        assert(batch.items@[j].path@ == source[j].1.nibbles@);
        assert(batch.items@[i].path@ == source[i].1.nibbles@);
    }
    assert(entries[i].path == source[i].1.nibbles@);
    assert(batch.items@[i].path@ == source[i].1.nibbles@);
    assert(entries[i].hashed_address == Some(source[i].0@));
    law_backfill_is_read_back(table, entries, i, cursor.max_block_number);
    crate::table::law_batch_keeps_table(table, entries);
    crate::table::law_seek_exact(after, cursor, source[i].1.nibbles@, fuel);
}

/// The entry that a branch is filled in as holds its path, its trie and the branch, at block 0.
pub proof fn law_initial_entry(
    hashed_address: Option<Seq<u8>>,
    path: Seq<u8>,
    branch: BranchView,
)
    ensures
        initial_entry(hashed_address, path, branch).block_number == 0,
        initial_entry(hashed_address, path, branch).path == path,
        initial_entry(hashed_address, path, branch).hashed_address == hashed_address,
        initial_entry(hashed_address, path, branch).branch == Some(branch),
{
}

/// One more place makes a number `base` times as large and adds the place.
pub proof fn law_places_add_up(base: nat, places: Seq<u8>, place: u8)
    ensures
        in_base(base, Seq::empty()) == 0,
        in_base(base, places.push(place)) == base * in_base(base, places) + place,
{
    assert(places.push(place).drop_last() =~= places);
}

/// How far a hashed key is among all of them is what its first three bytes say.
pub proof fn law_hash_progress(key: B256)
    ensures
        key.progress() == key@[0] * 65536 + key@[1] * 256 + key@[2],
{
    let places = key@.take(3);
    reveal_with_fuel(in_base, 4);
    assert(places.drop_last() =~= key@.take(2));
    assert(places.drop_last().drop_last() =~= key@.take(1));
    assert(places.drop_last().drop_last().drop_last() =~= Seq::empty());
}

/// How far a path is among all of them is what its first six nibbles say, with zeros behind a
/// shorter one.
pub proof fn law_path_progress(path: Nibbles)
    ensures
        ({
            let nibble = |i: int|
                if i < path@.len() {
                    path@[i] as int
                } else {
                    0int
                };
            path.progress() == nibble(0) * 1048576 + nibble(1) * 65536 + nibble(2) * 4096 + nibble(
                3,
            ) * 256 + nibble(4) * 16 + nibble(5)
        }),
{
    let n = estimate_places(path@.len()) as int;
    reveal_with_fuel(in_base, 7);
    reveal_with_fuel(vstd::arithmetic::power::pow, 7);
    let places = path@.take(n);
    let share = vstd::arithmetic::power::pow(16, (6 - n) as nat);
    assert(share == (if n == 0 {
        16777216int
    } else if n == 1 {
        1048576
    } else if n == 2 {
        65536
    } else if n == 3 {
        4096
    } else if n == 4 {
        256
    } else if n == 5 {
        16
    } else {
        1
    }));
    let a = places.drop_last();
    let b = a.drop_last();
    let c = b.drop_last();
    let d = c.drop_last();
    let e = d.drop_last();
    let front = in_base(16, places) as int;
    let whole: int = if n == 0 {
        0
    } else if n == 1 {
        path@[0] * 1048576
    } else if n == 2 {
        path@[0] * 1048576 + path@[1] * 65536
    } else if n == 3 {
        path@[0] * 1048576 + path@[1] * 65536 + path@[2] * 4096
    } else if n == 4 {
        path@[0] * 1048576 + path@[1] * 65536 + path@[2] * 4096 + path@[3] * 256
    } else if n == 5 {
        path@[0] * 1048576 + path@[1] * 65536 + path@[2] * 4096 + path@[3] * 256 + path@[4] * 16
    } else {
        path@[0] * 1048576 + path@[1] * 65536 + path@[2] * 4096 + path@[3] * 256 + path@[4] * 16
            + path@[5]
    };
    if n == 0 {
        assert(front == 0);
    } else if n == 1 {
        assert(a =~= Seq::empty());
        assert(front == path@[0]);
    } else if n == 2 {
        assert(b =~= Seq::empty());
        assert(front == path@[0] * 16 + path@[1]);
    } else if n == 3 {
        assert(c =~= Seq::empty());
        assert(front == path@[0] * 256 + path@[1] * 16 + path@[2]);
    } else if n == 4 {
        assert(d =~= Seq::empty());
        assert(front == path@[0] * 4096 + path@[1] * 256 + path@[2] * 16 + path@[3]);
    } else if n == 5 {
        assert(e =~= Seq::empty());
        assert(front == path@[0] * 65536 + path@[1] * 4096 + path@[2] * 256 + path@[3] * 16
            + path@[4]);
    } else {
        assert(e.drop_last() =~= Seq::empty());
        assert(front == path@[0] * 1048576 + path@[1] * 65536 + path@[2] * 4096 + path@[3] * 256
            + path@[4] * 16 + path@[5]);
    }
    lemma_share(front, share, n, whole);
}

/// A number times its share.
proof fn lemma_share(front: int, share: int, n: int, whole: int)
    requires
        0 <= n <= 6,
        n == 0 ==> share == 16777216 && front * 16777216 == whole,
        n == 1 ==> share == 1048576 && front * 1048576 == whole,
        n == 2 ==> share == 65536 && front * 65536 == whole,
        n == 3 ==> share == 4096 && front * 4096 == whole,
        n == 4 ==> share == 256 && front * 256 == whole,
        n == 5 ==> share == 16 && front * 16 == whole,
        n == 6 ==> share == 1 && front == whole,
    ensures
        front * share == whole,
{
    assert(front * 1 == front);
}

/// An entry that is read waits behind those that wait already, or makes a batch with them if they
/// are then as many as are stored at a time. It is counted. Progress is reported with every entry
/// whose number is a multiple of the number after which it is.
pub proof fn law_one_entry_is_read<Key, Value>(run: BackfillView<Key, Value>, entry: (Key, Value))
    requires
        run.total < u64::MAX,
        run.log_every > 0,
    ensures
        ({
            let (after, save) = run.with_entry(entry);
            &&& after.total == run.total + 1
            &&& after.storage_every == run.storage_every
            &&& after.log_every == run.log_every
            &&& after.ended == run.ended
            &&& run.waiting.len() + 1 >= run.storage_every ==> save == Some(
                run.waiting.push(entry),
            ) && after.waiting.len() == 0
            &&& run.waiting.len() + 1 < run.storage_every ==> save is None && after.waiting
                == run.waiting.push(entry)
        }),
        run.reports_next() <==> exists|times: int|
            #![trigger times * run.log_every]
            run.total + 1 == times * run.log_every,
{
    let next = run.total + 1;
    let every = run.log_every as int;
    if run.reports_next() {
        vstd::arithmetic::div_mod::lemma_fundamental_div_mod(next, every);
        vstd::arithmetic::mul::lemma_mul_is_commutative(every, next / every);
        assert(next == (next / every) * run.log_every);
    }
    if exists|times: int| #![trigger times * run.log_every] next == times * run.log_every {
        let times = choose|times: int|
            #![trigger times * run.log_every]
            next == times * run.log_every;
        vstd::arithmetic::div_mod::lemma_mod_multiples_basic(times, every);
    }
}

/// At the end of the source all that waits is stored, if anything does, and nothing waits then. At
/// the start nothing was read.
pub proof fn law_end_of_source<Key, Value>(
    run: BackfillView<Key, Value>,
    storage_every: usize,
    log_every: usize,
    save: Option<Vec<(Key, Value)>>,
)
    ensures
        ({
            let (after, rest) = run.with_end();
            &&& after.ended
            &&& after.waiting.len() == 0
            &&& after.total == run.total
            &&& after.storage_every == run.storage_every
            &&& after.log_every == run.log_every
            &&& run.waiting.len() > 0 ==> rest == Some(run.waiting)
            &&& run.waiting.len() == 0 ==> rest is None
        }),
        ({
            let start = BackfillView::<Key, Value>::fresh(storage_every, log_every);
            &&& start.waiting.len() == 0
            &&& start.total == 0
            &&& start.storage_every == storage_every
            &&& start.log_every == log_every
            &&& !start.ended
        }),
        save is None ==> save_view(save) is None,
        save is Some ==> save_view(save) == Some(save->0@),
{
}

/// A walk over a table with several values to a key hands out what it finds, and errors in looking
/// for a value. Where the values of a key are over it goes on with the next key, and where there is
/// none, or an error in looking for it, it ends.
pub proof fn law_walk_decisions<Key, Value, Error>(entry: (Key, Value), error: Error)
    ensures
        next_dup_step(Ok::<_, Error>(Some(entry))) == DupStep::Yield(Ok::<_, Error>(entry)),
        next_dup_step(Ok::<Option<(Key, Value)>, Error>(None)) is NextKey,
        next_dup_step(Err::<Option<(Key, Value)>, Error>(error)) == DupStep::Yield(
            Err::<(Key, Value), Error>(error),
        ),
        next_no_dup_step(Ok::<_, Error>(Some(entry))) == DupStep::<Key, Value, Error>::Seek(entry.0),
        next_no_dup_step(Ok::<Option<(Key, Value)>, Error>(None)) is End,
        next_no_dup_step(Err::<Option<(Key, Value)>, Error>(error)) is End,
        seek_step(Ok::<_, Error>(Some(entry))) == DupStep::Yield(Ok::<_, Error>(entry)),
        seek_step(Ok::<Option<(Key, Value)>, Error>(None)) is End,
        seek_step(Err::<Option<(Key, Value)>, Error>(error)) == DupStep::Yield(
            Err::<(Key, Value), Error>(error),
        ),
{
}

/// A store that is marked has nothing to be filled with. Any other is filled with the accounts, the
/// slots, the storage tries and the state trie, and then marked with the best block.
pub proof fn law_parts_of_the_filling(
    earliest: Option<(u64, B256)>,
    best_number: u64,
    best_hash: B256,
)
    ensures
        ({
            let stages = backfill_stages(earliest, best_number, best_hash);
            &&& earliest is Some ==> stages.len() == 0
            &&& earliest is None ==> {
                &&& stages.len() == 5
                &&& stages[0] is HashedAccounts
                &&& stages[1] is HashedStorage
                &&& stages[2] is StoragesTrie
                &&& stages[3] is AccountsTrie
                &&& stages[4] == (BackfillStage::SetEarliest {
                    block_number: best_number,
                    hash: best_hash,
                })
            }
        }),
{
}

} // verus!
