//! Deletion of old items from the DynamoDB table.
use vstd::prelude::*;

use crate::chunks::split_chunks;
use crate::dynamodb::{DynamoDbPreimageStore, DynamoDbStep, BATCH_SIZE};
use crate::storage::{ExternalStorageError, ExternalStorageResult};
use crate::text::{decimal_text, joined};

verus! {

/// What an item has to meet for the scan of a pruning to give it. `:before_block` stands for the
/// block in decimal digits.
pub const PRUNE_FILTER: &'static str = "block_number < :before_block";

/// An item of the table that is to be deleted, as far as its key is known. `A` is what the
/// service has for attributes.
#[derive(Debug)]
pub struct ScannedItem<A> {
    pub full_path: Option<A>,
    pub block_number: Option<A>,
}

/// The key of an item to delete.
#[derive(Debug, PartialEq, Eq)]
pub struct DeleteKey<A> {
    pub full_path: A,
    pub block_number: A,
}

/// The key of a scanned item, if it is known.
pub open spec fn delete_key<A>() -> spec_fn(ScannedItem<A>) -> Option<DeleteKey<A>> {
    |item: ScannedItem<A>|
        match (item.full_path, item.block_number) {
            (Some(full_path), Some(block_number)) => Some(DeleteKey { full_path, block_number }),
            _ => None,
        }
}

/// A request to delete items.
#[derive(Debug)]
pub struct DeleteBatch<A> {
    pub keys: Vec<DeleteKey<A>>,
    /// How many items count as removed once the request is done: all that were scanned with
    /// those to delete.
    pub removed: usize,
}

/// The requests that delete scanned items: one for each piece of at most [`BATCH_SIZE`] in
/// which a key is known.
pub open spec fn delete_batches<A>(pieces: Seq<Seq<ScannedItem<A>>>) -> Seq<
    (Seq<DeleteKey<A>>, nat),
>
    decreases pieces.len(),
{
    if pieces.len() == 0 {
        Seq::empty()
    } else {
        let before = delete_batches(pieces.drop_last());
        let keys = pieces.last().filter_map(delete_key());
        if keys.len() == 0 {
            before
        } else {
            before.push((keys, pieces.last().len()))
        }
    }
}

/// The contents of a list of requests.
pub open spec fn delete_batches_view<A>(batches: Seq<DeleteBatch<A>>) -> Seq<
    (Seq<DeleteKey<A>>, nat),
> {
    Seq::new(batches.len(), |i: int| (batches[i].keys@, batches[i].removed as nat))
}

/// The keys that are known in a piece.
fn known_keys<A>(piece: Vec<ScannedItem<A>>) -> (r: Vec<DeleteKey<A>>)
    ensures
        r@ == piece@.filter_map(delete_key()),
{
    let ghost all = piece@;
    let ghost f = delete_key::<A>();
    let mut rest: Vec<ScannedItem<A>> = piece;
    let mut keys: Vec<DeleteKey<A>> = Vec::new();
    assert(all.skip(0) =~= all);
    assert(all.take(0).filter_map(f) =~= Seq::empty());
    let ghost mut done: int = 0;
    while rest.len() > 0
        invariant
            f == delete_key::<A>(),
            0 <= done <= all.len(),
            rest@ == all.skip(done),
            keys@ == all.take(done).filter_map(f),
        decreases rest@.len(),
    {
        let item = rest.remove(0);
        proof {
            assert(item == all[done]);
            all.lemma_filter_map_take_succ(f, done);
            assert(rest@ =~= all.skip(done + 1));
        }
        match (item.full_path, item.block_number) {
            (Some(full_path), Some(block_number)) => {
                let ghost before = keys@;
                keys.push(DeleteKey { full_path, block_number });
                assert(keys@ =~= all.take(done + 1).filter_map(f));
            },
            _ => {
                assert(keys@ =~= all.take(done + 1).filter_map(f));
            },
        }
        proof {
            done = done + 1;
        }
    }
    assert(all.take(done) =~= all);
    keys
}

/// The requests that delete the items of a page that was scanned for pruning.
pub fn prune_page<A>(items: Vec<ScannedItem<A>>) -> (r: Vec<DeleteBatch<A>>)
    ensures
        delete_batches_view(r@) == delete_batches(crate::chunks::chunks(items@, BATCH_SIZE as nat)),
{
    let ghost pieces = crate::chunks::chunks(items@, BATCH_SIZE as nat);
    let mut rest: Vec<Vec<ScannedItem<A>>> = split_chunks(items, BATCH_SIZE);
    let mut batches: Vec<DeleteBatch<A>> = Vec::new();
    let ghost mut done: int = 0;
    assert(pieces.take(0).len() == 0);
    assert(delete_batches_view(batches@) =~= Seq::empty());
    while rest.len() > 0
        invariant
            0 <= done <= pieces.len(),
            crate::chunks::lists_view(rest@) == pieces.skip(done),
            delete_batches_view(batches@) == delete_batches(pieces.take(done)),
        decreases rest@.len(),
    {
        let ghost before = rest@;
        let piece = rest.remove(0);
        let removed: usize = piece.len();
        proof {
            assert(crate::chunks::lists_view(before).len() == pieces.skip(done).len());
            assert(crate::chunks::lists_view(before)[0] == piece@);
            assert(pieces[done] == pieces.skip(done)[0]);
            assert forall|k: int| 0 <= k < rest@.len() implies crate::chunks::lists_view(rest@)[k]
                == pieces.skip(done + 1)[k] by {
                assert(rest@[k] == before[k + 1]);
                assert(crate::chunks::lists_view(before)[k + 1] == pieces.skip(done)[k + 1]);
            }
            assert(crate::chunks::lists_view(rest@) =~= pieces.skip(done + 1));
            assert(pieces.take(done + 1).drop_last() =~= pieces.take(done));
            assert(pieces.take(done + 1).last() == piece@);
        }
        let keys = known_keys(piece);
        let ghost sent = batches@;
        if keys.len() > 0 {
            let batch = DeleteBatch { keys, removed };
            let ghost view = (batch.keys@, batch.removed as nat);
            batches.push(batch);
            assert(delete_batches_view(batches@) =~= delete_batches_view(sent).push(view));
        }
        proof {
            done = done + 1;
        }
    }
    assert(pieces.take(done) =~= pieces);
    batches
}

/// What pruning does next.
#[derive(Debug)]
pub enum PruneStep<A, K> {
    /// Scan the next page of items that are old enough.
    Scan(Option<K>),
    /// Delete these items.
    Delete(Vec<DeleteKey<A>>),
    /// Pruning is over: so many items were removed.
    Done(u64),
}

/// The contents of a [`PruneStep`].
pub enum PruneStepView<A, K> {
    Scan(Option<K>),
    Delete(Seq<DeleteKey<A>>),
    Done(u64),
}

impl<A, K> View for PruneStep<A, K> {
    type V = PruneStepView<A, K>;

    open spec fn view(&self) -> PruneStepView<A, K> {
        match *self {
            PruneStep::Scan(key) => PruneStepView::Scan(key),
            PruneStep::Delete(keys) => PruneStepView::Delete(keys@),
            PruneStep::Done(count) => PruneStepView::Done(count),
        }
    }
}

/// Pruning of old items: page by page, request by request.
#[derive(Debug)]
pub struct PruneRun<A, K> {
    before_block: u64,
    removed_count: u64,
    in_flight: usize,
    waiting: Vec<DeleteBatch<A>>,
    last_evaluated_key: Option<K>,
}

/// The contents of a [`PruneRun`].
pub struct PruneView<A, K> {
    /// The block before which an item is old enough.
    pub before_block: u64,
    /// How many items were removed.
    pub removed_count: u64,
    /// How many items the request that was sent last removes.
    pub in_flight: nat,
    /// The requests of this page that are still to be sent.
    pub waiting: Seq<(Seq<DeleteKey<A>>, nat)>,
    /// Where this page ended, if it did not end the scan.
    pub last_evaluated_key: Option<K>,
}

impl<A, K> View for PruneRun<A, K> {
    type V = PruneView<A, K>;

    closed spec fn view(&self) -> PruneView<A, K> {
        PruneView {
            before_block: self.before_block,
            removed_count: self.removed_count,
            in_flight: self.in_flight as nat,
            waiting: delete_batches_view(self.waiting@),
            last_evaluated_key: self.last_evaluated_key,
        }
    }
}

impl<A, K> PruneView<A, K> {
    /// A run that has done nothing yet.
    pub open spec fn fresh(before_block: u64) -> PruneView<A, K> {
        PruneView {
            before_block,
            removed_count: 0,
            in_flight: 0,
            waiting: Seq::empty(),
            last_evaluated_key: None,
        }
    }

    /// The run after its next step, and the step: the next request of the page, or the next
    /// page, or the end.
    pub open spec fn advanced(self) -> (PruneView<A, K>, PruneStepView<A, K>) {
        if self.waiting.len() > 0 {
            (
                PruneView {
                    in_flight: self.waiting[0].1,
                    waiting: self.waiting.drop_first(),
                    ..self
                },
                PruneStepView::Delete(self.waiting[0].0),
            )
        } else {
            (
                PruneView { in_flight: 0, last_evaluated_key: None, ..self },
                match self.last_evaluated_key {
                    Some(key) => PruneStepView::Scan(Some(key)),
                    None => PruneStepView::Done(self.removed_count),
                },
            )
        }
    }

    /// The run when a page was scanned.
    pub open spec fn with_page(
        self,
        items: Seq<ScannedItem<A>>,
        last_evaluated_key: Option<K>,
    ) -> PruneView<A, K> {
        PruneView {
            waiting: delete_batches(crate::chunks::chunks(items, BATCH_SIZE as nat)),
            last_evaluated_key,
            ..self
        }
    }

    /// The run when the request that was sent last is done.
    pub open spec fn with_deleted(self) -> PruneView<A, K> {
        PruneView { removed_count: (self.removed_count + self.in_flight) as u64, ..self }
    }
}

impl<A, K> PruneRun<A, K> {
    /// Start to prune the items before a block. Nothing was removed yet. The first step is to
    /// scan from the start.
    pub fn prune_before_block(before_block: u64) -> (r: (Self, PruneStep<A, K>))
        ensures
            r.0@ == PruneView::<A, K>::fresh(before_block),
            r.1@ == PruneStepView::<A, K>::Scan(None),
    {
        assert(delete_batches_view(Seq::<DeleteBatch<A>>::empty()) =~= Seq::empty());
        (
            Self {
                before_block,
                removed_count: 0,
                in_flight: 0,
                waiting: Vec::new(),
                last_evaluated_key: None,
            },
            PruneStep::Scan(None),
        )
    }

    /// What stands for `:before_block` in [`PRUNE_FILTER`]: the block in decimal digits.
    pub fn block_filter(&self) -> (r: String)
        ensures
            r@ == crate::text::decimal(self@.before_block as nat),
    {
        decimal_text(self.before_block)
    }

    /// How many items were removed.
    pub fn removed_count(&self) -> (r: u64)
        ensures
            r == self@.removed_count,
    {
        self.removed_count
    }

    /// How many items the request that was sent last removes.
    pub fn in_flight(&self) -> (r: usize)
        ensures
            r == self@.in_flight,
    {
        self.in_flight
    }

    /// Take the next step.
    fn advance(self) -> (r: (Self, PruneStep<A, K>))
        ensures
            (r.0@, r.1@) == self@.advanced(),
    {
        let mut waiting = self.waiting;
        if waiting.len() > 0 {
            let ghost before = waiting@;
            let batch = waiting.remove(0);
            proof {
                assert(delete_batches_view(before)[0] == (batch.keys@, batch.removed as nat));
                assert(delete_batches_view(waiting@) =~= delete_batches_view(before).drop_first());
            }
            (
                Self {
                    before_block: self.before_block,
                    removed_count: self.removed_count,
                    in_flight: batch.removed,
                    waiting,
                    last_evaluated_key: self.last_evaluated_key,
                },
                PruneStep::Delete(batch.keys),
            )
        } else {
            let step = match self.last_evaluated_key {
                Some(key) => PruneStep::Scan(Some(key)),
                None => PruneStep::Done(self.removed_count),
            };
            (
                Self {
                    before_block: self.before_block,
                    removed_count: self.removed_count,
                    in_flight: 0,
                    waiting,
                    last_evaluated_key: None,
                },
                step,
            )
        }
    }

    /// Go on after a page was scanned, with its items and where it ended.
    pub fn scanned(
        self,
        page: Result<(Vec<ScannedItem<A>>, Option<K>), String>,
    ) -> (r: ExternalStorageResult<(Self, PruneStep<A, K>)>)
        ensures
            match page {
                Ok((items, last_evaluated_key)) => r is Ok && (r->Ok_0.0@, r->Ok_0.1@)
                    == self@.with_page(items@, last_evaluated_key).advanced(),
                Err(detail) => r is Err && r->Err_0@ == crate::dynamodb::step_error(DynamoDbStep::PruneScan, detail@),
            },
    {
        match DynamoDbPreimageStore::checked(DynamoDbStep::PruneScan, page) {
            Ok((items, last_evaluated_key)) => {
                let run = Self {
                    before_block: self.before_block,
                    removed_count: self.removed_count,
                    in_flight: self.in_flight,
                    waiting: prune_page(items),
                    last_evaluated_key,
                };
                Ok(run.advance())
            },
            Err(error) => Err(error),
        }
    }

    /// The error for a request that could not be built. Nothing is deleted after that.
    pub fn build_failed(self, detail: String) -> (r: ExternalStorageError)
        ensures
            r@ == crate::dynamodb::step_error(DynamoDbStep::BuildDelete, detail@),
    {
        ExternalStorageError::StorageError(
            joined("Failed to build delete request: ", detail.as_str()),
        )
    }

    /// Go on after a request to delete items was answered.
    pub fn deleted(self, outcome: Result<(), String>) -> (r: ExternalStorageResult<
        (Self, PruneStep<A, K>),
    >)
        requires
            self@.removed_count + self@.in_flight <= u64::MAX,
        ensures
            match outcome {
                Ok(_) => r is Ok && (r->Ok_0.0@, r->Ok_0.1@) == self@.with_deleted().advanced(),
                Err(detail) => r is Err && r->Err_0@ == crate::dynamodb::step_error(
                    DynamoDbStep::BatchDelete,
                    detail@,
                ),
            },
    {
        match DynamoDbPreimageStore::checked(DynamoDbStep::BatchDelete, outcome) {
            Ok(_) => {
                let run = Self {
                    before_block: self.before_block,
                    removed_count: self.removed_count + self.in_flight as u64,
                    in_flight: self.in_flight,
                    waiting: self.waiting,
                    last_evaluated_key: self.last_evaluated_key,
                };
                Ok(run.advance())
            },
            Err(error) => Err(error),
        }
    }
}

/// The keys of all requests.
pub open spec fn keys_of<A>(batches: Seq<(Seq<DeleteKey<A>>, nat)>) -> Seq<Seq<DeleteKey<A>>> {
    Seq::new(batches.len(), |i: int| batches[i].0)
}

/// Mapping a sequence in two parts.
pub(crate) proof fn lemma_filter_map_add<X, Y>(a: Seq<X>, b: Seq<X>, f: spec_fn(X) -> Option<Y>)
    ensures
        (a + b).filter_map(f) == a.filter_map(f) + b.filter_map(f),
    decreases b.len(),
{
    let whole = a + b;
    if b.len() == 0 {
        assert(whole =~= a);
        assert(whole.filter_map(f) =~= a.filter_map(f) + b.filter_map(f));
    } else {
        let n = whole.len() - 1;
        whole.lemma_filter_map_take_succ(f, n);
        b.lemma_filter_map_take_succ(f, b.len() - 1);
        assert(whole.take(n) =~= a + b.drop_last());
        assert(whole.take(n + 1) =~= whole);
        assert(b.take(b.len() - 1) =~= b.drop_last());
        assert(b.take(b.len() as int) =~= b);
        assert(whole[n] == b.last());
        lemma_filter_map_add(a, b.drop_last(), f);
        assert(whole.filter_map(f) =~= a.filter_map(f) + b.filter_map(f));
    }
}

/// The keys in the requests for some pieces are those that are known in the pieces put
/// together.
proof fn lemma_delete_batches<A>(pieces: Seq<Seq<ScannedItem<A>>>, size: nat)
    requires
        forall|i: int| 0 <= i < pieces.len() ==> (#[trigger] pieces[i]).len() <= size,
    ensures
        keys_of(delete_batches(pieces)).flatten() == pieces.flatten().filter_map(delete_key()),
        forall|i: int|
            0 <= i < delete_batches(pieces).len() ==> 0 < (#[trigger] delete_batches(
                pieces,
            )[i]).0.len() <= delete_batches(pieces)[i].1 <= size,
    decreases pieces.len(),
{
    let f = delete_key::<A>();
    let all = delete_batches(pieces);
    if pieces.len() == 0 {
        assert(keys_of(all) =~= Seq::empty());
        assert(keys_of(all).flatten() =~= Seq::empty());
        assert(pieces.flatten() =~= Seq::empty());
        assert(pieces.flatten().filter_map(f) =~= Seq::empty());
    } else {
        let front = pieces.drop_last();
        let last = pieces.last();
        let keys = last.filter_map(f);
        let before = delete_batches(front);
        assert forall|i: int| 0 <= i < front.len() implies (#[trigger] front[i]).len() <= size by {
            assert(front[i] == pieces[i]);
        }
        lemma_delete_batches(front, size);
        assert(pieces =~= front.push(last));
        front.lemma_flatten_push(last);
        lemma_filter_map_add(front.flatten(), last, f);
        assert(pieces[pieces.len() - 1] == last);
        lemma_filter_map_len(last, f);
        if keys.len() == 0 {
            assert(keys_of(before).flatten() + keys =~= keys_of(before).flatten());
        } else {
            assert(keys_of(all) =~= keys_of(before).push(keys));
            keys_of(before).lemma_flatten_push(keys);
            assert forall|i: int| 0 <= i < all.len() implies 0 < (#[trigger] all[i]).0.len()
                <= all[i].1 <= size by {
                if i < before.len() {
                    assert(all[i] == before[i]);
                }
            }
        }
    }
}

/// Mapping a sequence makes it no longer.
proof fn lemma_filter_map_len<X, Y>(s: Seq<X>, f: spec_fn(X) -> Option<Y>)
    ensures
        s.filter_map(f).len() <= s.len(),
    decreases s.len(),
{
    if s.len() > 0 {
        s.lemma_filter_map_take_succ(f, s.len() - 1);
        assert(s.take(s.len() - 1) =~= s.drop_last());
        assert(s.take(s.len() as int) =~= s);
        lemma_filter_map_len(s.drop_last(), f);
    }
}

/// Pruning a page deletes every item of it whose key is known, once and in order, in requests
/// that are not empty and no larger than one can be.
pub proof fn law_prune_page_deletes_all<A>(items: Seq<ScannedItem<A>>)
    ensures
        keys_of(delete_batches(crate::chunks::chunks(items, BATCH_SIZE as nat))).flatten() == items.filter_map(
            delete_key(),
        ),
        forall|i: int|
            0 <= i < delete_batches(crate::chunks::chunks(items, BATCH_SIZE as nat)).len() ==> 0 < (
            #[trigger] delete_batches(crate::chunks::chunks(items, BATCH_SIZE as nat))[i]).0.len() <= BATCH_SIZE,
{
    crate::chunks::law_chunks(items, BATCH_SIZE as nat);
    lemma_delete_batches(crate::chunks::chunks(items, BATCH_SIZE as nat), BATCH_SIZE as nat);
}

/// How many items some requests remove.
pub open spec fn removed_by<A>(batches: Seq<(Seq<DeleteKey<A>>, nat)>) -> nat
    decreases batches.len(),
{
    if batches.len() == 0 {
        0
    } else {
        batches[0].1 + removed_by(batches.drop_first())
    }
}

/// A run at the end of its page, and its step then, if every request of the page is done.
pub open spec fn page_finished<A, K>(run: PruneView<A, K>) -> (PruneView<A, K>, PruneStepView<A, K>)
    decreases run.waiting.len(),
{
    if run.waiting.len() == 0 {
        run.advanced()
    } else {
        page_finished(run.advanced().0.with_deleted())
    }
}

/// At the end of a page the count has grown by what its requests remove, and the run goes on
/// where the page ended, or is over with that count.
pub proof fn law_prune_counts<A, K>(run: PruneView<A, K>)
    requires
        run.removed_count + removed_by(run.waiting) <= u64::MAX,
    ensures
        page_finished(run).0.removed_count == run.removed_count + removed_by(run.waiting),
        page_finished(run).0.before_block == run.before_block,
        page_finished(run).1 == (match run.last_evaluated_key {
            Some(key) => PruneStepView::<A, K>::Scan(Some(key)),
            None => PruneStepView::Done((run.removed_count + removed_by(run.waiting)) as u64),
        }),
    decreases run.waiting.len(),
{
    if run.waiting.len() > 0 {
        law_prune_counts(run.advanced().0.with_deleted());
    }
}

/// The requests that a run sends for its page, if every one of them is done.
pub open spec fn page_requests<A, K>(run: PruneView<A, K>) -> Seq<Seq<DeleteKey<A>>>
    decreases run.waiting.len(),
{
    if run.waiting.len() == 0 {
        Seq::empty()
    } else {
        match run.advanced().1 {
            PruneStepView::Delete(keys) => seq![keys] + page_requests(
                run.advanced().0.with_deleted(),
            ),
            _ => Seq::empty(),
        }
    }
}

/// A run sends the requests of its page as they are.
proof fn lemma_page_requests<A, K>(run: PruneView<A, K>)
    ensures
        page_requests(run) == keys_of(run.waiting),
    decreases run.waiting.len(),
{
    if run.waiting.len() > 0 {
        let next = run.advanced().0.with_deleted();
        lemma_page_requests(next);
        assert(next.waiting == run.waiting.drop_first());
        assert(seq![run.waiting[0].0] + keys_of(next.waiting) =~= keys_of(run.waiting));
    } else {
        assert(keys_of(run.waiting) =~= Seq::empty());
    }
}

/// A page of a scan.
pub struct PageView<A, K> {
    pub items: Seq<ScannedItem<A>>,
    /// Where it ended, if it did not end the scan.
    pub last_evaluated_key: Option<K>,
}

/// Whether pages are those of one scan from the start to the end.
pub open spec fn is_scan<A, K>(pages: Seq<PageView<A, K>>) -> bool {
    &&& pages.len() > 0
    &&& forall|i: int|
        0 <= i < pages.len() ==> ((#[trigger] pages[i]).last_evaluated_key is None <==> i
            == pages.len() - 1)
}

/// The items of all pages, in order.
pub open spec fn scanned_items<A, K>(pages: Seq<PageView<A, K>>) -> Seq<ScannedItem<A>>
    decreases pages.len(),
{
    if pages.len() == 0 {
        Seq::empty()
    } else {
        pages[0].items + scanned_items(pages.drop_first())
    }
}

/// How many items the requests for all pages remove.
pub open spec fn removed_in<A, K>(pages: Seq<PageView<A, K>>) -> nat
    decreases pages.len(),
{
    if pages.len() == 0 {
        0
    } else {
        removed_by(delete_batches(crate::chunks::chunks(pages[0].items, BATCH_SIZE as nat)))
            + removed_in(pages.drop_first())
    }
}

/// All that a run does.
pub struct PruneOutcome<A, K> {
    /// Where each page was asked for.
    pub scans: Seq<Option<K>>,
    /// The requests, in order.
    pub requests: Seq<Seq<DeleteKey<A>>>,
    /// The run after that.
    pub run: PruneView<A, K>,
    /// Its step then.
    pub step: PruneStepView<A, K>,
}

/// All that a run does from a step on: it is given a page for each scan that it asks for, and
/// every request that it sends is done.
pub open spec fn pruned<A, K>(
    run: PruneView<A, K>,
    step: PruneStepView<A, K>,
    pages: Seq<PageView<A, K>>,
) -> PruneOutcome<A, K>
    decreases pages.len(),
{
    match step {
        PruneStepView::Scan(from) => if pages.len() == 0 {
            PruneOutcome { scans: Seq::empty(), requests: Seq::empty(), run, step }
        } else {
            let paged = run.with_page(pages[0].items, pages[0].last_evaluated_key);
            let (after, next) = page_finished(paged);
            let rest = pruned(after, next, pages.drop_first());
            PruneOutcome {
                scans: seq![from] + rest.scans,
                requests: page_requests(paged) + rest.requests,
                ..rest
            }
        },
        _ => PruneOutcome { scans: Seq::empty(), requests: Seq::empty(), run, step },
    }
}

/// Putting lists of lists behind each other puts their elements behind each other.
proof fn lemma_flatten_add<T>(a: Seq<Seq<T>>, b: Seq<Seq<T>>)
    ensures
        (a + b).flatten() == a.flatten() + b.flatten(),
    decreases b.len(),
{
    if b.len() == 0 {
        assert(a + b =~= a);
        assert(b.flatten() =~= Seq::empty());
        assert(a.flatten() + b.flatten() =~= a.flatten());
    } else {
        let front = b.drop_last();
        lemma_flatten_add(a, front);
        assert(a + b =~= (a + front).push(b.last()));
        (a + front).lemma_flatten_push(b.last());
        assert(b =~= front.push(b.last()));
        front.lemma_flatten_push(b.last());
        assert((a + b).flatten() =~= a.flatten() + b.flatten());
    }
}

/// Pruning as a whole. Each page is asked for where the one before it ended. The requests for
/// all pages together delete every item that was scanned and whose key is known, once and in
/// order. None is empty and none is larger than one can be. In the end the run is over, with the
/// sum of what the requests remove, and all along it prunes before the same block.
pub proof fn law_prune_run<A, K>(before_block: u64, pages: Seq<PageView<A, K>>)
    requires
        is_scan(pages),
        removed_in(pages) <= u64::MAX,
    ensures
        ({
            let outcome = pruned(
                PruneView::<A, K>::fresh(before_block),
                PruneStepView::Scan(None),
                pages,
            );
            &&& outcome.scans == Seq::new(
                pages.len(),
                |i: int|
                    if i == 0 {
                        None
                    } else {
                        pages[i - 1].last_evaluated_key
                    },
            )
            &&& outcome.requests.flatten() == scanned_items(pages).filter_map(delete_key())
            &&& forall|i: int|
                0 <= i < outcome.requests.len() ==> 0 < (#[trigger] outcome.requests[i]).len()
                    <= BATCH_SIZE
            &&& outcome.step == PruneStepView::<A, K>::Done(removed_in(pages) as u64)
            &&& outcome.run.before_block == before_block
        }),
{
    let run = PruneView::<A, K>::fresh(before_block);
    lemma_pruned(run, None, pages);
}

/// What a run does from a scan on.
proof fn lemma_pruned<A, K>(run: PruneView<A, K>, from: Option<K>, pages: Seq<PageView<A, K>>)
    requires
        is_scan(pages),
        run.removed_count + removed_in(pages) <= u64::MAX,
    ensures
        ({
            let outcome = pruned(run, PruneStepView::Scan(from), pages);
            &&& outcome.scans == Seq::new(
                pages.len(),
                |i: int|
                    if i == 0 {
                        from
                    } else {
                        pages[i - 1].last_evaluated_key
                    },
            )
            &&& outcome.requests.flatten() == scanned_items(pages).filter_map(delete_key())
            &&& forall|i: int|
                0 <= i < outcome.requests.len() ==> 0 < (#[trigger] outcome.requests[i]).len()
                    <= BATCH_SIZE
            &&& outcome.step == PruneStepView::<A, K>::Done(
                (run.removed_count + removed_in(pages)) as u64,
            )
            &&& outcome.run.before_block == run.before_block
        }),
    decreases pages.len(),
{
    let page = pages[0];
    let rest = pages.drop_first();
    let batches = delete_batches(crate::chunks::chunks(page.items, BATCH_SIZE as nat));
    let paged = run.with_page(page.items, page.last_evaluated_key);
    let (after, next) = page_finished(paged);
    let then = pruned(after, next, rest);
    let outcome = pruned(run, PruneStepView::Scan(from), pages);
    law_prune_page_deletes_all(page.items);
    law_prune_counts(paged);
    lemma_page_requests(paged);
    lemma_flatten_add(page_requests(paged), then.requests);
    lemma_filter_map_add(page.items, scanned_items(rest), delete_key());
    assert forall|i: int| 0 <= i < keys_of(batches).len() implies 0 < (#[trigger] keys_of(
        batches,
    )[i]).len() <= BATCH_SIZE by {
        assert(keys_of(batches)[i] == batches[i].0);
    }
    assert(removed_in(pages) == removed_by(batches) + removed_in(rest));
    assert(outcome.step == then.step && outcome.run == then.run);
    if pages.len() == 1 {
        assert(rest.len() == 0);
        assert(removed_in(rest) == 0);
        assert(next == PruneStepView::<A, K>::Done(
            (run.removed_count + removed_by(batches)) as u64,
        ));
        assert(then.requests.flatten() =~= Seq::empty());
        assert(scanned_items(rest) =~= Seq::empty());
        assert(scanned_items(rest).filter_map(delete_key()) =~= Seq::empty());
    } else {
        assert forall|i: int| 0 <= i < rest.len() implies ((
        #[trigger] rest[i]).last_evaluated_key is None <==> i == rest.len() - 1) by {
            assert(rest[i] == pages[i + 1]);
        }
        assert(next == PruneStepView::<A, K>::Scan(page.last_evaluated_key));
        lemma_pruned(after, page.last_evaluated_key, rest);
    }
    assert(outcome.scans =~= Seq::new(
        pages.len(),
        |i: int|
            if i == 0 {
                from
            } else {
                pages[i - 1].last_evaluated_key
            },
    ));
    assert forall|i: int| 0 <= i < outcome.requests.len() implies 0 < (
    #[trigger] outcome.requests[i]).len() <= BATCH_SIZE by {
        if i < keys_of(batches).len() {
            assert(outcome.requests[i] == keys_of(batches)[i]);
        } else {
            assert(outcome.requests[i] == then.requests[i - keys_of(batches).len()]);
        }
    }
    assert(outcome.requests == page_requests(paged) + then.requests);
    assert(scanned_items(pages) == page.items + scanned_items(rest));
    assert(outcome.requests.flatten() == scanned_items(pages).filter_map(delete_key()));
}

/// Whether the keys of all items are known.
pub open spec fn keys_known<A>(items: Seq<ScannedItem<A>>) -> bool {
    forall|i: int|
        0 <= i < items.len() ==> (#[trigger] items[i]).full_path is Some
            && items[i].block_number is Some
}

/// The keys of items whose keys are all known.
proof fn lemma_keys_known<A>(items: Seq<ScannedItem<A>>)
    requires
        keys_known(items),
    ensures
        items.filter_map(delete_key()) == Seq::new(
            items.len(),
            |i: int| delete_key::<A>()(items[i])->0,
        ),
    decreases items.len(),
{
    let f = delete_key::<A>();
    let keys = Seq::new(items.len(), |i: int| f(items[i])->0);
    if items.len() == 0 {
        assert(items.filter_map(f) =~= keys);
    } else {
        let front = items.drop_last();
        assert(keys_known(front)) by {
            assert forall|i: int| 0 <= i < front.len() implies (
            #[trigger] front[i]).full_path is Some && front[i].block_number is Some by {
                assert(front[i] == items[i]);
            }
        }
        lemma_keys_known(front);
        items.lemma_filter_map_take_succ(f, items.len() - 1);
        assert(items.take(items.len() - 1) =~= front);
        assert(items.take(items.len() as int) =~= items);
        assert(items[items.len() - 1].full_path is Some);
        assert(items.filter_map(f) =~= keys);
    }
}

/// One request more removes so many items more.
proof fn lemma_removed_push<A>(
    batches: Seq<(Seq<DeleteKey<A>>, nat)>,
    batch: (Seq<DeleteKey<A>>, nat),
)
    ensures
        removed_by(batches.push(batch)) == removed_by(batches) + batch.1,
    decreases batches.len(),
{
    if batches.len() > 0 {
        lemma_removed_push(batches.drop_first(), batch);
        assert(batches.push(batch).drop_first() =~= batches.drop_first().push(batch));
    } else {
        reveal_with_fuel(removed_by, 2);
        assert(batches.push(batch).drop_first() =~= batches);
    }
}

/// Where all keys are known, the requests remove what the pieces hold.
proof fn lemma_removed_known<A>(pieces: Seq<Seq<ScannedItem<A>>>)
    requires
        forall|i: int| 0 <= i < pieces.len() ==> keys_known(#[trigger] pieces[i]),
    ensures
        removed_by(delete_batches(pieces)) == pieces.flatten().len(),
    decreases pieces.len(),
{
    if pieces.len() == 0 {
        assert(pieces.flatten() =~= Seq::empty());
    } else {
        let front = pieces.drop_last();
        let last = pieces.last();
        assert forall|i: int| 0 <= i < front.len() implies keys_known(#[trigger] front[i]) by {
            assert(front[i] == pieces[i]);
        }
        lemma_removed_known(front);
        assert(pieces =~= front.push(last));
        front.lemma_flatten_push(last);
        assert(keys_known(pieces[pieces.len() - 1]));
        lemma_keys_known(last);
        if last.len() > 0 {
            lemma_removed_push(
                delete_batches(front),
                (last.filter_map(delete_key()), last.len()),
            );
        }
    }
}

/// Pieces of items with known keys are ones.
proof fn lemma_chunks_known<A>(items: Seq<ScannedItem<A>>, size: nat)
    requires
        size > 0,
        keys_known(items),
    ensures
        forall|i: int|
            0 <= i < crate::chunks::chunks(items, size).len() ==> keys_known(
                #[trigger] crate::chunks::chunks(items, size)[i],
            ),
    decreases items.len(),
{
    let pieces = crate::chunks::chunks(items, size);
    if items.len() > size {
        let rest = items.skip(size as int);
        let first = items.take(size as int);
        assert(keys_known(rest)) by {
            assert forall|i: int| 0 <= i < rest.len() implies (
            #[trigger] rest[i]).full_path is Some && rest[i].block_number is Some by {
                assert(rest[i] == items[size + i]);
            }
        }
        assert(keys_known(first)) by {
            assert forall|i: int| 0 <= i < first.len() implies (
            #[trigger] first[i]).full_path is Some && first[i].block_number is Some by {
                assert(first[i] == items[i]);
            }
        }
        lemma_chunks_known(rest, size);
        let after = crate::chunks::chunks(rest, size);
        assert forall|i: int| 0 <= i < pieces.len() implies keys_known(#[trigger] pieces[i]) by {
            if i > 0 {
                assert(pieces[i] == after[i - 1]);
            }
        }
    }
}

/// Where the keys of all items are known, pruning counts every item that was scanned.
pub proof fn law_prune_counts_all<A, K>(pages: Seq<PageView<A, K>>)
    requires
        keys_known(scanned_items(pages)),
    ensures
        removed_in(pages) == scanned_items(pages).len(),
    decreases pages.len(),
{
    if pages.len() > 0 {
        let page = pages[0].items;
        let rest = scanned_items(pages.drop_first());
        let all = scanned_items(pages);
        assert(keys_known(page)) by {
            assert forall|i: int| 0 <= i < page.len() implies (
            #[trigger] page[i]).full_path is Some && page[i].block_number is Some by {
                assert(page[i] == all[i]);
            }
        }
        assert(keys_known(rest)) by {
            assert forall|i: int| 0 <= i < rest.len() implies (
            #[trigger] rest[i]).full_path is Some && rest[i].block_number is Some by {
                assert(rest[i] == all[page.len() + i]);
            }
        }
        law_prune_counts_all(pages.drop_first());
        crate::chunks::law_chunks(page, BATCH_SIZE as nat);
        lemma_chunks_known(page, BATCH_SIZE as nat);
        lemma_removed_known(crate::chunks::chunks(page, BATCH_SIZE as nat));
    }
}

/// The keys of a table's items that are old enough for a pruning, where `block_of` is the block
/// that an attribute says.
pub open spec fn old_keys<A>(
    table: Set<DeleteKey<A>>,
    block_of: spec_fn(A) -> nat,
    before_block: u64,
) -> Set<DeleteKey<A>> {
    table.filter(|key: DeleteKey<A>| block_of(key.block_number) < before_block)
}

/// Whether a scan for pruning gave the items of a table that are old enough, each once.
pub open spec fn gives_old<A>(
    items: Seq<ScannedItem<A>>,
    table: Set<DeleteKey<A>>,
    block_of: spec_fn(A) -> nat,
    before_block: u64,
) -> bool {
    &&& keys_known(items)
    &&& items.filter_map(delete_key()).no_duplicates()
    &&& items.filter_map(delete_key()).to_set() == old_keys(table, block_of, before_block)
}

/// What pruning does to a table: if the scan gives the items that are before the block, each
/// once, the requests leave exactly the items that are not, and the count is that of those that
/// were.
pub proof fn law_prune_leaves_the_rest<A, K>(
    table: Set<DeleteKey<A>>,
    block_of: spec_fn(A) -> nat,
    before_block: u64,
    pages: Seq<PageView<A, K>>,
)
    requires
        is_scan(pages),
        gives_old(scanned_items(pages), table, block_of, before_block),
        old_keys(table, block_of, before_block).len() <= u64::MAX,
    ensures
        ({
            let outcome = pruned(
                PruneView::<A, K>::fresh(before_block),
                PruneStepView::Scan(None),
                pages,
            );
            &&& table.difference(outcome.requests.flatten().to_set()) == table.filter(
                |key: DeleteKey<A>| block_of(key.block_number) >= before_block,
            )
            &&& outcome.step == PruneStepView::<A, K>::Done(
                old_keys(table, block_of, before_block).len() as u64,
            )
        }),
{
    let items = scanned_items(pages);
    let keys = items.filter_map(delete_key());
    lemma_keys_known(items);
    keys.unique_seq_to_set();
    law_prune_counts_all(pages);
    law_prune_run(before_block, pages);
    assert(table.difference(keys.to_set()) =~= table.filter(
        |key: DeleteKey<A>| block_of(key.block_number) >= before_block,
    ));
}

/// An item is deleted by its full path and its block, if it has both.
pub proof fn law_which_items_are_deleted<A>(item: ScannedItem<A>, full_path: A, block_number: A)
    ensures
        item.full_path == Some(full_path) && item.block_number == Some(block_number)
            ==> delete_key()(item) == Some(DeleteKey { full_path, block_number }),
        item.full_path is None || item.block_number is None ==> delete_key::<A>()(item) is None,
        PRUNE_FILTER@ == "block_number < :before_block"@,
{
}

/// A piece in which a key is known takes one request more, with its known keys, which counts all
/// of its items. A piece in which none is takes none.
pub proof fn law_one_piece_more<A>(pieces: Seq<Seq<ScannedItem<A>>>, piece: Seq<ScannedItem<A>>)
    ensures
        delete_batches(Seq::<Seq<ScannedItem<A>>>::empty()).len() == 0,
        piece.filter_map(delete_key()).len() == 0 ==> delete_batches(pieces.push(piece))
            == delete_batches(pieces),
        piece.filter_map(delete_key()).len() > 0 ==> delete_batches(pieces.push(piece))
            == delete_batches(pieces).push((piece.filter_map(delete_key()), piece.len())),
{
    assert(pieces.push(piece).drop_last() =~= pieces);
}

/// The contents of requests are their keys and their counts, in order.
pub proof fn law_delete_request_contents<A>(batches: Seq<DeleteBatch<A>>)
    ensures
        delete_batches_view(batches).len() == batches.len(),
        forall|i: int|
            #![trigger delete_batches_view(batches)[i]]
            0 <= i < batches.len() ==> delete_batches_view(batches)[i].0 == batches[i].keys@
                && delete_batches_view(batches)[i].1 == batches[i].removed,
{
}

/// A pruning starts with nothing removed and nothing to send. It sends the requests of a page in
/// order, then scans where the page ended, or is over with its count.
pub proof fn law_prune_steps<A, K>(run: PruneView<A, K>, before_block: u64, key: K)
    ensures
        ({
            let start = PruneView::<A, K>::fresh(before_block);
            &&& start.before_block == before_block
            &&& start.removed_count == 0
            &&& start.in_flight == 0
            &&& start.waiting.len() == 0
            &&& start.last_evaluated_key is None
        }),
        run.waiting.len() > 0 ==> {
            &&& run.advanced().1 == PruneStepView::<A, K>::Delete(run.waiting[0].0)
            &&& run.advanced().0.in_flight == run.waiting[0].1
            &&& run.advanced().0.waiting == run.waiting.skip(1)
            &&& run.advanced().0.last_evaluated_key == run.last_evaluated_key
        },
        run.waiting.len() == 0 ==> {
            &&& run.last_evaluated_key == Some(key) ==> run.advanced().1 == PruneStepView::<
                A,
                K,
            >::Scan(Some(key))
            &&& run.last_evaluated_key is None ==> run.advanced().1 == PruneStepView::<A, K>::Done(
                run.removed_count,
            )
            &&& run.advanced().0.in_flight == 0
            &&& run.advanced().0.waiting.len() == 0
            &&& run.advanced().0.last_evaluated_key is None
        },
        run.advanced().0.before_block == run.before_block,
        run.advanced().0.removed_count == run.removed_count,
{
}

/// A page that was scanned gives the requests to send and where to go on. A request that is done
/// adds what it removes to the count.
pub proof fn law_prune_events<A, K>(
    run: PruneView<A, K>,
    items: Seq<ScannedItem<A>>,
    last_evaluated_key: Option<K>,
    step: PruneStep<A, K>,
)
    requires
        run.removed_count + run.in_flight <= u64::MAX,
    ensures
        ({
            let paged = run.with_page(items, last_evaluated_key);
            &&& paged.waiting == delete_batches(crate::chunks::chunks(items, 25))
            &&& paged.last_evaluated_key == last_evaluated_key
            &&& paged.before_block == run.before_block
            &&& paged.removed_count == run.removed_count
        }),
        ({
            let done = run.with_deleted();
            &&& done.removed_count == run.removed_count + run.in_flight
            &&& done.waiting == run.waiting
            &&& done.last_evaluated_key == run.last_evaluated_key
            &&& done.before_block == run.before_block
        }),
        match step {
            PruneStep::Scan(from) => step@ == PruneStepView::<A, K>::Scan(from),
            PruneStep::Delete(keys) => step@ == PruneStepView::<A, K>::Delete(keys@),
            PruneStep::Done(count) => step@ == PruneStepView::<A, K>::Done(count),
        },
{
}

} // verus!
