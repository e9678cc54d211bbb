//! Which blocks are processed when.
use vstd::prelude::*;

use crate::config::{DynamoDbConfig, ProofHelperConfig, StorageBackend};
use crate::primitives::B256;
use crate::storage::ExternalStorageResult;
use crate::text::{decimal_text, joined};

verus! {

/// Proof Helper: processes blocks and tracks state changes.
#[derive(Debug)]
pub struct ProofHelper<Context, Store> {
    pub ctx: Context,
    pub storage: Store,
}

/// What the node tells of its chain.
#[derive(Debug, Clone, Copy)]
pub enum ChainNotification {
    /// Blocks were added, up to this one.
    Committed { tip_number: u64, tip_hash: B256 },
    /// Something else, with the tip of the chain that holds from then on, if it names one.
    Other { committed_tip: Option<(u64, B256)> },
}

/// What is done about a notification.
#[derive(Debug, Clone, Copy)]
pub struct NotificationPlan {
    /// The first and the last block to process, in order.
    pub blocks: Option<(u64, u64)>,
    /// The block to report as finished after that.
    pub finished: Option<(u64, B256)>,
}

/// The first and the last block to process to get from one block to a later one.
pub open spec fn blocks_between(latest_stored: u64, latest: u64) -> Option<(u64, u64)> {
    if latest_stored < latest {
        Some(((latest_stored + 1) as u64, latest))
    } else {
        None
    }
}

/// What is done about a notification: the blocks that are new are processed, and the tip is
/// reported. If none is new, nothing is done and nothing is reported.
pub open spec fn plan_for(notification: ChainNotification, latest_stored: u64) -> NotificationPlan {
    match notification {
        ChainNotification::Committed { tip_number, tip_hash } => NotificationPlan {
            blocks: blocks_between(latest_stored, tip_number),
            finished: if latest_stored < tip_number {
                Some((tip_number, tip_hash))
            } else {
                None
            },
        },
        ChainNotification::Other { committed_tip } => NotificationPlan {
            blocks: None,
            finished: committed_tip,
        },
    }
}

impl<Context, Store> ProofHelper<Context, Store> {
    /// Create a new ProofHelper instance.
    pub fn new(ctx: Context, storage: Store) -> (r: Self)
        ensures
            r.ctx == ctx,
            r.storage == storage,
    {
        Self { ctx, storage }
    }

    /// How the run starts, once the store is filled: with the blocks after the latest that
    /// is stored, up to the latest that there is.
    pub fn run(&self, latest_stored: u64, latest: u64) -> (r: Option<(u64, u64)>)
        ensures
            latest_stored < latest ==> r == Some(((latest_stored + 1) as u64, latest)),
            latest_stored >= latest ==> r is None,
            r == blocks_between(latest_stored, latest),
    {
        if latest_stored < latest {
            Some((latest_stored + 1, latest))
        } else {
            None
        }
    }

    /// The run from there on, step by step.
    pub fn start(&self, latest_stored: u64, latest: u64) -> (r: HelperRun)
        ensures
            r@ == RunView::fresh(latest_stored, latest),
    {
        HelperRun {
            catching_up: true,
            blocks: self.run(latest_stored, latest),
            fetched: false,
            committed: None,
            finished: None,
            ended: false,
        }
    }

    /// How the run goes on with a notification.
    pub fn on_notification(&self, notification: &ChainNotification, latest_stored: u64) -> (r:
        NotificationPlan)
        ensures
            match *notification {
                ChainNotification::Committed { tip_number, tip_hash } => if latest_stored
                    < tip_number {
                    r.blocks == Some(((latest_stored + 1) as u64, tip_number)) && r.finished
                        == Some((tip_number, tip_hash))
                } else {
                    r.blocks is None && r.finished is None
                },
                ChainNotification::Other { committed_tip } => r.blocks is None && r.finished
                    == committed_tip,
            },
            r == plan_for(*notification, latest_stored),
    {
        planned_for(notification, latest_stored)
    }
}

/// What is done about a notification.
fn planned_for(notification: &ChainNotification, latest_stored: u64) -> (r: NotificationPlan)
    ensures
        *notification matches ChainNotification::Committed { tip_number, tip_hash } ==> (
        r.blocks is Some <==> latest_stored < tip_number) && (r.blocks is Some ==> r.blocks == Some(
            ((latest_stored + 1) as u64, tip_number),
        ) && r.finished == Some((tip_number, tip_hash))),
        r == plan_for(*notification, latest_stored),
{
    match notification {
        ChainNotification::Committed { tip_number, tip_hash } => {
            if *tip_number <= latest_stored {
                NotificationPlan { blocks: None, finished: None }
            } else {
                NotificationPlan {
                    blocks: Some((latest_stored + 1, *tip_number)),
                    finished: Some((*tip_number, *tip_hash)),
                }
            }
        },
        ChainNotification::Other { committed_tip } => NotificationPlan {
            blocks: None,
            finished: *committed_tip,
        },
    }
}

/// What the run does next.
#[derive(Debug, Clone, Copy, PartialEq, Eq)]
pub enum RunStep {
    /// Fetch this block from the node.
    Fetch(u64),
    /// Execute this block and store what it changes.
    Execute(u64),
    /// Wait for a notification.
    Wait,
    /// Read the latest block that is stored.
    ReadLatest,
    /// Report this block as finished.
    Report(u64, B256),
    /// The run is over.
    Done,
}

/// What came of a step of the run, or the error with which it failed.
#[derive(Debug)]
pub enum RunEvent<Error> {
    /// Whether the node has the block.
    Fetched(Result<bool, Error>),
    /// The block was executed and what it changes stored.
    Executed(Result<(), Error>),
    /// The next notification, or none if there are no more.
    Notified(Result<Option<ChainNotification>, Error>),
    /// The latest block that is stored.
    LatestStored(Result<u64, Error>),
    /// The block was reported.
    Reported(Result<(), Error>),
}

/// With what the run failed.
#[derive(Debug, PartialEq, Eq)]
pub enum RunError<Error> {
    /// The node does not have a block: the text of the error.
    BlockNotFound(String),
    /// A step failed with this.
    Failed(Error),
}

/// The contents of a [`RunError`].
pub enum RunErrorView<Error> {
    BlockNotFound(Seq<char>),
    Failed(Error),
}

impl<Error> View for RunError<Error> {
    type V = RunErrorView<Error>;

    open spec fn view(&self) -> RunErrorView<Error> {
        match *self {
            RunError::BlockNotFound(text) => RunErrorView::BlockNotFound(text@),
            RunError::Failed(error) => RunErrorView::Failed(error),
        }
    }
}

/// The run, step by step, once the store is filled. A step that fails ends it.
#[derive(Debug)]
pub struct HelperRun {
    catching_up: bool,
    blocks: Option<(u64, u64)>,
    fetched: bool,
    committed: Option<(u64, B256)>,
    finished: Option<(u64, B256)>,
    ended: bool,
}

/// The contents of a [`HelperRun`].
pub struct RunView {
    /// Whether the blocks are those that were missed, which are fetched, and not those that a
    /// notification brings.
    pub catching_up: bool,
    /// The next and the last block to execute, in order.
    pub blocks: Option<(u64, u64)>,
    /// Whether the next block was fetched.
    pub fetched: bool,
    /// The tip of the blocks that a notification brings, until it is known which of them are new.
    pub committed: Option<(u64, B256)>,
    /// The block to report once there are no more blocks to execute.
    pub finished: Option<(u64, B256)>,
    /// Whether there are no more notifications.
    pub ended: bool,
}

impl View for HelperRun {
    type V = RunView;

    closed spec fn view(&self) -> RunView {
        RunView {
            catching_up: self.catching_up,
            blocks: self.blocks,
            fetched: self.fetched,
            committed: self.committed,
            finished: self.finished,
            ended: self.ended,
        }
    }
}

impl RunView {
    /// The run at its start: first it catches up.
    pub open spec fn fresh(latest_stored: u64, latest: u64) -> RunView {
        RunView {
            catching_up: true,
            blocks: blocks_between(latest_stored, latest),
            fetched: false,
            committed: None,
            finished: None,
            ended: false,
        }
    }

    /// What is done next: blocks are executed as long as there are any, then the last one is
    /// reported, and then the run waits.
    pub open spec fn step(self) -> RunStep {
        match (self.blocks, self.committed, self.finished) {
            (Some((next, _)), _, _) => if self.catching_up && !self.fetched {
                RunStep::Fetch(next)
            } else {
                RunStep::Execute(next)
            },
            (None, Some(_), _) => RunStep::ReadLatest,
            (None, None, Some((number, hash))) => RunStep::Report(number, hash),
            (None, None, None) => if self.ended {
                RunStep::Done
            } else {
                RunStep::Wait
            },
        }
    }

    /// The run after the next block was executed.
    pub open spec fn executed(self) -> RunView {
        RunView {
            blocks: match self.blocks {
                Some((next, last)) => if next < last {
                    Some(((next + 1) as u64, last))
                } else {
                    None
                },
                None => None,
            },
            fetched: false,
            ..self
        }
    }

    /// The run after a notification.
    pub open spec fn notified(self, notification: ChainNotification) -> RunView {
        match notification {
            ChainNotification::Committed { tip_number, tip_hash } => RunView {
                catching_up: false,
                committed: Some((tip_number, tip_hash)),
                ..self
            },
            ChainNotification::Other { committed_tip } => RunView {
                catching_up: false,
                finished: committed_tip,
                ..self
            },
        }
    }

    /// The run when it is known which of the blocks of a notification are new.
    pub open spec fn planned(self, latest_stored: u64) -> RunView {
        match self.committed {
            Some((tip_number, tip_hash)) => {
                let plan = plan_for(
                    ChainNotification::Committed { tip_number, tip_hash },
                    latest_stored,
                );
                RunView { blocks: plan.blocks, committed: None, finished: plan.finished, ..self }
            },
            None => self,
        }
    }

    /// The run after what came of its step, or the error that ends it. What came of something
    /// else than its step changes nothing.
    pub open spec fn after<Error>(self, event: RunEvent<Error>) -> Result<
        RunView,
        RunErrorView<Error>,
    > {
        match (self.step(), event) {
            (RunStep::Fetch(number), RunEvent::Fetched(Ok(found))) => if found {
                Ok(RunView { fetched: true, ..self })
            } else {
                Err(RunErrorView::BlockNotFound(block_not_found_text(number)))
            },
            (RunStep::Fetch(_), RunEvent::Fetched(Err(error))) => Err(RunErrorView::Failed(error)),
            (RunStep::Execute(_), RunEvent::Executed(Ok(_))) => Ok(self.executed()),
            (RunStep::Execute(_), RunEvent::Executed(Err(error))) => Err(
                RunErrorView::Failed(error),
            ),
            (RunStep::Wait, RunEvent::Notified(Ok(Some(notification)))) => Ok(
                self.notified(notification),
            ),
            (RunStep::Wait, RunEvent::Notified(Ok(None))) => Ok(RunView { ended: true, ..self }),
            (RunStep::Wait, RunEvent::Notified(Err(error))) => Err(RunErrorView::Failed(error)),
            (RunStep::ReadLatest, RunEvent::LatestStored(Ok(latest_stored))) => Ok(
                self.planned(latest_stored),
            ),
            (RunStep::ReadLatest, RunEvent::LatestStored(Err(error))) => Err(
                RunErrorView::Failed(error),
            ),
            (RunStep::Report(_, _), RunEvent::Reported(Ok(_))) => Ok(
                RunView { finished: None, ..self },
            ),
            (RunStep::Report(_, _), RunEvent::Reported(Err(error))) => Err(
                RunErrorView::Failed(error),
            ),
            _ => Ok(self),
        }
    }
}

impl HelperRun {
    /// What is done next.
    pub fn step(&self) -> (r: RunStep)
        ensures
            r == self@.step(),
    {
        match (self.blocks, self.committed, self.finished) {
            (Some((next, _)), _, _) => if self.catching_up && !self.fetched {
                RunStep::Fetch(next)
            } else {
                RunStep::Execute(next)
            },
            (None, Some(_), _) => RunStep::ReadLatest,
            (None, None, Some((number, hash))) => RunStep::Report(number, hash),
            (None, None, None) => if self.ended {
                RunStep::Done
            } else {
                RunStep::Wait
            },
        }
    }

    /// Go on after what came of the step.
    pub fn after<Error>(self, event: RunEvent<Error>) -> (r: Result<Self, RunError<Error>>)
        ensures
            match self@.after(event) {
                Ok(run) => r is Ok && r->Ok_0@ == run,
                Err(error) => r is Err && r->Err_0@ == error,
            },
    {
        let mut run = self;
        match (run.step(), event) {
            (RunStep::Fetch(number), RunEvent::Fetched(fetched)) => match fetched {
                Ok(found) => {
                    if !found {
                        return Err(RunError::BlockNotFound(block_not_found(number)));
                    }
                    run.fetched = true;
                },
                Err(error) => return Err(RunError::Failed(error)),
            },
            (RunStep::Execute(number), RunEvent::Executed(executed)) => match executed {
                Ok(_) => {
                    run.fetched = false;
                    run.blocks = match run.blocks {
                        Some((_, last)) => if number < last {
                            Some((number + 1, last))
                        } else {
                            None
                        },
                        None => None,
                    };
                },
                Err(error) => return Err(RunError::Failed(error)),
            },
            (RunStep::Wait, RunEvent::Notified(notified)) => match notified {
                Ok(Some(ChainNotification::Committed { tip_number, tip_hash })) => {
                    run.catching_up = false;
                    run.committed = Some((tip_number, tip_hash));
                },
                Ok(Some(ChainNotification::Other { committed_tip })) => {
                    run.catching_up = false;
                    run.finished = committed_tip;
                },
                Ok(None) => {
                    run.ended = true;
                },
                Err(error) => return Err(RunError::Failed(error)),
            },
            (RunStep::ReadLatest, RunEvent::LatestStored(read)) => match read {
                Ok(latest_stored) => {
                    if let Some((tip_number, tip_hash)) = run.committed {
                        let plan = planned_for(
                            &ChainNotification::Committed { tip_number, tip_hash },
                            latest_stored,
                        );
                        run.blocks = plan.blocks;
                        run.committed = None;
                        run.finished = plan.finished;
                    }
                },
                Err(error) => return Err(RunError::Failed(error)),
            },
            (RunStep::Report(_, _), RunEvent::Reported(reported)) => match reported {
                Ok(_) => {
                    run.finished = None;
                },
                Err(error) => return Err(RunError::Failed(error)),
            },
            _ => {},
        }
        Ok(run)
    }
}

/// What a run does with the blocks that it has to execute.
pub struct BlocksTrace<Error> {
    /// The blocks that were executed and stored, in order.
    pub stored: Seq<u64>,
    /// The blocks that it was tried to execute, in order.
    pub tried: Seq<u64>,
    /// The run after that, or the error that ended it.
    pub end: Result<RunView, RunErrorView<Error>>,
}

/// What a run does with the blocks that it has to execute, if events come in this order: up to an
/// error, until there are no more blocks or until there are no more events.
pub open spec fn blocks_run<Error>(run: RunView, events: Seq<RunEvent<Error>>) -> BlocksTrace<Error>
    decreases events.len(),
{
    if run.blocks is None || events.len() == 0 {
        BlocksTrace { stored: Seq::empty(), tried: Seq::empty(), end: Ok(run) }
    } else {
        let tried = match (run.step(), events[0]) {
            (RunStep::Execute(number), RunEvent::Executed(_)) => seq![number],
            _ => Seq::empty(),
        };
        match run.after(events[0]) {
            Ok(next) => {
                let rest = blocks_run(next, events.drop_first());
                BlocksTrace {
                    stored: tried + rest.stored,
                    tried: tried + rest.tried,
                    end: rest.end,
                }
            },
            Err(error) => BlocksTrace { stored: Seq::empty(), tried, end: Err(error) },
        }
    }
}

/// The first `count` blocks from `first` on.
pub open spec fn blocks_from(first: u64, count: nat) -> Seq<u64> {
    Seq::new(count, |i: int| (first + i) as u64)
}

/// Whatever comes, the blocks that a run executes are the first ones of its range, each once and
/// in order, and it ends at the first failure. Without one it goes on with the block after those
/// that are stored, and only when all are stored does it report the last one. A block that the
/// node does not have ends it with the text that says so, and it is the one after those that are
/// stored. A block that fails is the last that is tried.
pub proof fn law_blocks_in_order<Error>(run: RunView, events: Seq<RunEvent<Error>>)
    requires
        run.blocks matches Some((first, last)) && first <= last,
    ensures
        ({
            let (first, last) = run.blocks->0;
            let trace = blocks_run(run, events);
            let count = trace.stored.len();
            &&& count <= last - first + 1
            &&& trace.stored == blocks_from(first, count)
            &&& match trace.end {
                Ok(after) => {
                    &&& trace.tried == trace.stored
                    &&& after.blocks == (if count == last - first + 1 {
                        None
                    } else {
                        Some(((first + count) as u64, last))
                    })
                    &&& after.finished == run.finished
                    &&& after.step() is Report ==> count == last - first + 1
                },
                Err(RunErrorView::BlockNotFound(text)) => {
                    &&& run.catching_up
                    &&& count <= last - first
                    &&& trace.tried == trace.stored
                    &&& text == block_not_found_text((first + count) as u64)
                },
                Err(RunErrorView::Failed(_)) => {
                    &&& count <= last - first
                    &&& trace.tried == trace.stored || trace.tried == blocks_from(first, count + 1)
                },
            }
        }),
    decreases events.len(),
{
    let (first, last) = run.blocks->0;
    let trace = blocks_run(run, events);
    if events.len() == 0 {
        assert(trace.stored =~= blocks_from(first, 0));
    } else {
        match run.after(events[0]) {
            Ok(next) => {
                let rest = blocks_run(next, events.drop_first());
                if next.blocks is Some {
                    law_blocks_in_order(next, events.drop_first());
                }
                if next.blocks == run.blocks {
                    assert(trace.stored =~= rest.stored);
                    assert(trace.tried =~= rest.tried);
                } else {
                    assert(trace.stored == seq![first] + rest.stored);
                    assert(trace.stored =~= blocks_from(first, trace.stored.len()));
                    if rest.tried == rest.stored {
                        assert(trace.tried == trace.stored);
                    } else {
                        assert(trace.tried =~= blocks_from(first, trace.stored.len() + 1));
                    }
                }
            },
            Err(_) => {
                assert(trace.stored =~= blocks_from(first, 0));
                if trace.tried.len() > 0 {
                    assert(trace.tried =~= blocks_from(first, 1));
                } else {
                    assert(trace.tried =~= trace.stored);
                }
            },
        }
    }
}

/// Catching up executes the blocks after the latest that is stored, each once and in order, up to
/// the latest that there is or to the first failure. Before that is over, no notification is
/// waited for.
pub proof fn law_catching_up_first<Error>(
    latest_stored: u64,
    latest: u64,
    events: Seq<RunEvent<Error>>,
)
    ensures
        ({
            let trace = blocks_run(RunView::fresh(latest_stored, latest), events);
            let count = trace.stored.len();
            &&& latest <= latest_stored ==> count == 0 && trace.tried.len() == 0
                && trace.end is Ok && trace.end->Ok_0.step() is Wait
            &&& latest_stored < latest ==> {
                &&& count <= latest - latest_stored
                &&& trace.stored == blocks_from((latest_stored + 1) as u64, count)
                &&& trace.end matches Ok(after) ==> (after.step() is Wait <==> count == latest
                    - latest_stored)
            }
        }),
{
    if latest_stored < latest {
        law_blocks_in_order(RunView::fresh(latest_stored, latest), events);
        lemma_only_blocks(RunView::fresh(latest_stored, latest), events);
    }
}

/// A run with nothing but blocks to execute waits after them.
proof fn lemma_only_blocks<Error>(run: RunView, events: Seq<RunEvent<Error>>)
    requires
        run.committed is None,
        run.finished is None,
        !run.ended,
    ensures
        blocks_run(run, events).end matches Ok(after) ==> after.committed is None
            && after.finished is None && !after.ended,
    decreases events.len(),
{
    if run.blocks is Some && events.len() > 0 {
        match run.after(events[0]) {
            Ok(next) => lemma_only_blocks(next, events.drop_first()),
            Err(_) => {},
        }
    }
}

/// The text of the error for a block that the node does not have.
pub open spec fn block_not_found_text(block_number: u64) -> Seq<char> {
    "Block "@ + crate::text::decimal(block_number as nat) + " not found"@
}

/// The text of the error for a block that the node does not have.
pub fn block_not_found(block_number: u64) -> (r: String)
    ensures
        r@ == "Block "@ + crate::text::decimal(block_number as nat) + " not found"@,
        r@ == block_not_found_text(block_number),
{
    let mut text = joined("Block ", decimal_text(block_number).as_str());
    text.append(" not found");
    text
}

/// Where a storage backend is.
#[derive(Debug, PartialEq, Eq)]
pub enum StorageLocation {
    /// The DynamoDB table.
    DynamoDb(DynamoDbConfig),
    /// The path of the SQLite database.
    Sqlite(String),
}

/// Where the configured storage backend is. For DynamoDB this is the table that is configured,
/// or the default one. For SQLite it is the path of the database, which has to be configured.
pub fn create_storage(config: &ProofHelperConfig) -> (r: Result<StorageLocation, String>)
    ensures
        match config@.backend {
            StorageBackend::DynamoDB => r matches Ok(StorageLocation::DynamoDb(table)) && table@
                == (match config@.dynamodb {
                Some(configured) => configured,
                None => crate::config::default_dynamodb(),
            }),
            StorageBackend::SQLite => match config@.db_path {
                Some(db_path) => r matches Ok(StorageLocation::Sqlite(path)) && path@ == db_path,
                None => r is Err && r->Err_0@
                    == "SQLite configuration is required when using SQLite backend"@,
            },
        },
{
    match config.storage.backend {
        StorageBackend::DynamoDB => match &config.storage.dynamodb {
            Some(table) => Ok(StorageLocation::DynamoDb(table.clone())),
            None => Ok(StorageLocation::DynamoDb(DynamoDbConfig::default())),
        },
        StorageBackend::SQLite => match &config.storage.sqlite {
            Some(sqlite) => Ok(StorageLocation::Sqlite(sqlite.db_path.clone())),
            None => Err("SQLite configuration is required when using SQLite backend".to_owned()),
        },
    }
}

/// The store, or the text of the error for a store that could not be made.
pub fn storage_created<T>(created: ExternalStorageResult<T>) -> (r: Result<T, String>)
    ensures
        match created {
            Ok(store) => r is Ok && r->Ok_0 == store,
            Err(error) => r is Err && r->Err_0@ == "Failed to create SQLite store: "@
                + crate::storage::error_text(error@),
        },
{
    match created {
        Ok(store) => Ok(store),
        Err(error) => Err(joined("Failed to create SQLite store: ", error.message().as_str())),
    }
}

/// Whether the store is well, or the text of the error for one that is not.
pub fn storage_healthy(health: ExternalStorageResult<()>) -> (r: Result<(), String>)
    ensures
        match health {
            Ok(_) => r is Ok,
            Err(error) => r is Err && r->Err_0@ == "SQLite health check failed: "@
                + crate::storage::error_text(error@),
        },
{
    match health {
        Ok(_) => Ok(()),
        Err(error) => Err(joined("SQLite health check failed: ", error.message().as_str())),
    }
}

/// The latest block that is stored after the blocks from `next` to `last` are processed in order,
/// or nothing if one of them lacks its parent when its turn comes.
pub open spec fn after_blocks(earliest: u64, latest_stored: u64, next: int, last: int) -> Option<u64>
    decreases last - next + 1,
{
    if next > last {
        Some(latest_stored)
    } else if 0 < next <= u64::MAX && crate::live::parent_is_stored(
        earliest,
        latest_stored,
        next as u64,
    ) {
        after_blocks(earliest, next as u64, next + 1, last)
    } else {
        None
    }
}

/// Catching up never lacks a parent: if the blocks after the latest that is stored are processed
/// in order, the state of each one's parent is stored when its turn comes, and in the end the
/// latest block is the latest that is stored.
pub proof fn law_catching_up(earliest: u64, latest_stored: u64, latest: u64)
    requires
        earliest <= latest_stored,
    ensures
        match blocks_between(latest_stored, latest) {
            Some((first, last)) => after_blocks(
                earliest,
                latest_stored,
                first as int,
                last as int,
            ) == Some(latest),
            None => latest <= latest_stored,
        },
{
    if latest_stored < latest {
        lemma_after_blocks(earliest, latest_stored, latest as int);
    }
}

/// Blocks that follow on the latest that is stored can all be processed.
proof fn lemma_after_blocks(earliest: u64, latest_stored: u64, last: int)
    requires
        earliest <= latest_stored <= last <= u64::MAX,
    ensures
        after_blocks(earliest, latest_stored, latest_stored + 1, last) == Some(last as u64),
    decreases last - latest_stored,
{
    if latest_stored < last {
        lemma_after_blocks(earliest, (latest_stored + 1) as u64, last);
    }
}

/// After the blocks for a notification are processed, its tip is the latest that is stored,
/// so that the same notification again leads to nothing.
pub proof fn law_notification_once(
    tip_number: u64,
    tip_hash: B256,
    latest_stored: u64,
)
    ensures
        ({
            let notification = ChainNotification::Committed { tip_number, tip_hash };
            let after: u64 = match plan_for(notification, latest_stored).blocks {
                Some((first, last)) => last,
                None => latest_stored,
            };
            &&& after >= latest_stored
            &&& after >= tip_number
            &&& plan_for(notification, after).blocks is None
            &&& plan_for(notification, after).finished is None
        }),
{
}

/// A commit notification leads to every block after the latest that is stored, up to its tip, and
/// to no other, so that the state of each one's parent is stored when its turn comes, and in the
/// end the tip is the latest that is stored. Then the tip is reported. A notification of a tip that
/// is stored leads to nothing, and any other one only to a report.
pub proof fn law_commit_is_followed(
    earliest: u64,
    latest_stored: u64,
    tip_number: u64,
    tip_hash: B256,
    committed_tip: Option<(u64, B256)>,
)
    requires
        earliest <= latest_stored,
    ensures
        ({
            let plan = plan_for(
                ChainNotification::Committed { tip_number, tip_hash },
                latest_stored,
            );
            &&& latest_stored < tip_number ==> {
                &&& plan.blocks is Some
                &&& ({
                    let (first, last) = plan.blocks->0;
                    &&& first == latest_stored + 1
                    &&& last == tip_number
                    &&& after_blocks(earliest, latest_stored, first as int, last as int) == Some(
                        tip_number,
                    )
                })
                &&& plan.finished == Some((tip_number, tip_hash))
            }
            &&& tip_number <= latest_stored ==> plan.blocks is None && plan.finished is None
        }),
        plan_for(ChainNotification::Other { committed_tip }, latest_stored).blocks is None,
        plan_for(ChainNotification::Other { committed_tip }, latest_stored).finished
            == committed_tip,
{
    if latest_stored < tip_number {
        lemma_after_blocks(earliest, latest_stored, tip_number as int);
    }
}

/// Processing blocks in order goes on only while the state of each one's parent is stored: between
/// the earliest block and the latest that is stored then.
pub proof fn law_processing_needs_parents(
    earliest: u64,
    latest_stored: u64,
    next: u64,
    last: u64,
)
    ensures
        next > last ==> after_blocks(earliest, latest_stored, next as int, last as int) == Some(
            latest_stored,
        ),
        next <= last && 0 < next && earliest <= next - 1 <= latest_stored ==> after_blocks(
            earliest,
            latest_stored,
            next as int,
            last as int,
        ) == after_blocks(earliest, next, next + 1, last as int),
        next <= last && !(0 < next && earliest <= next - 1 <= latest_stored) ==> after_blocks(
            earliest,
            latest_stored,
            next as int,
            last as int,
        ) is None,
        blocks_between(latest_stored, last) is Some <==> latest_stored < last,
        latest_stored < last ==> blocks_between(latest_stored, last) == Some(
            ((latest_stored + 1) as u64, last),
        ),
{
}

/// A run that catches up fetches each block before it executes it. A block that the node does not
/// have ends it with the text that says so, and an error with that error.
pub proof fn law_run_fetches<Error>(run: RunView, next: u64, last: u64, error: Error)
    requires
        run.blocks == Some((next, last)),
        run.catching_up,
        !run.fetched,
    ensures
        run.step() == RunStep::Fetch(next),
        run.after(RunEvent::<Error>::Fetched(Ok(true))) matches Ok(after) && after.step()
            == RunStep::Execute(next) && after.blocks == run.blocks && after.finished
            == run.finished && after.committed == run.committed && after.ended == run.ended,
        run.after(RunEvent::<Error>::Fetched(Ok(false))) == Err::<RunView, RunErrorView<Error>>(
            RunErrorView::BlockNotFound(
                "Block "@ + crate::text::decimal(next as nat) + " not found"@,
            ),
        ),
        run.after(RunEvent::Fetched(Err(error))) == Err::<RunView, _>(RunErrorView::Failed(error)),
{
}

/// A run executes the block that is next, and goes on with the one after it, up to the last. What
/// it reports after them stays the same. A block that fails ends it with that error.
pub proof fn law_run_executes<Error>(run: RunView, next: u64, last: u64, error: Error)
    requires
        run.blocks == Some((next, last)),
        next <= last,
        run.fetched || !run.catching_up,
    ensures
        run.step() == RunStep::Execute(next),
        run.after(RunEvent::<Error>::Executed(Ok(()))) matches Ok(after) && after.blocks == (
        if next < last {
            Some(((next + 1) as u64, last))
        } else {
            None
        }) && !after.fetched && after.catching_up == run.catching_up && after.finished
            == run.finished && after.committed == run.committed && after.ended == run.ended,
        run.after(RunEvent::Executed(Err(error))) == Err::<RunView, _>(RunErrorView::Failed(error)),
{
}

/// A run with no blocks to execute reports the tip that is due, once, and then waits. A report that
/// fails ends it with that error.
pub proof fn law_run_reports<Error>(run: RunView, number: u64, hash: B256, error: Error)
    requires
        run.blocks is None,
        run.committed is None,
        run.finished == Some((number, hash)),
    ensures
        run.step() == RunStep::Report(number, hash),
        run.after(RunEvent::<Error>::Reported(Ok(()))) matches Ok(after) && after.finished is None
            && after.blocks is None && after.committed is None && after.step() == (if run.ended {
            RunStep::Done
        } else {
            RunStep::Wait
        }),
        run.after(RunEvent::Reported(Err(error))) == Err::<RunView, _>(RunErrorView::Failed(error)),
{
}

/// A run with nothing to do waits for notifications. After a commit it reads which blocks are
/// stored, and then has every block after those up to the tip to execute, and the tip to report, or
/// nothing if the tip is stored. After any other notification it reports what that names. Without a
/// notification the run is over.
pub proof fn law_run_is_notified<Error>(
    run: RunView,
    tip_number: u64,
    tip_hash: B256,
    latest_stored: u64,
    committed_tip: Option<(u64, B256)>,
    error: Error,
)
    requires
        run.blocks is None,
        run.committed is None,
        run.finished is None,
        !run.ended,
    ensures
        run.step() is Wait,
        run.after(
            RunEvent::<Error>::Notified(
                Ok(Some(ChainNotification::Committed { tip_number, tip_hash })),
            ),
        ) matches Ok(told) && told.step() is ReadLatest && (told.after(
            RunEvent::<Error>::LatestStored(Ok(latest_stored)),
        ) matches Ok(planned) && !planned.catching_up && planned.committed is None
            && !planned.ended && (if latest_stored < tip_number {
            planned.blocks == Some(((latest_stored + 1) as u64, tip_number)) && planned.finished
                == Some((tip_number, tip_hash)) && planned.step() == RunStep::Execute(
                (latest_stored + 1) as u64,
            )
        } else {
            planned.blocks is None && planned.finished is None && planned.step() is Wait
        })) && told.after(RunEvent::LatestStored(Err(error))) == Err::<RunView, _>(
            RunErrorView::Failed(error),
        ),
        run.after(
            RunEvent::<Error>::Notified(Ok(Some(ChainNotification::Other { committed_tip }))),
        ) matches Ok(told) && told.blocks is None && told.committed is None && told.finished
            == committed_tip && !told.ended,
        run.after(RunEvent::<Error>::Notified(Ok(None))) matches Ok(over) && over.step() is Done,
        run.after(RunEvent::Notified(Err(error))) == Err::<RunView, _>(RunErrorView::Failed(error)),
{
}

/// A run starts with every block after the latest that is stored, up to the latest that there is.
pub proof fn law_run_starts(latest_stored: u64, latest: u64)
    ensures
        latest_stored < latest ==> RunView::fresh(latest_stored, latest).blocks == Some(
            ((latest_stored + 1) as u64, latest),
        ) && RunView::fresh(latest_stored, latest).step() == RunStep::Fetch(
            (latest_stored + 1) as u64,
        ),
        latest_stored >= latest ==> RunView::fresh(latest_stored, latest).step() is Wait,
        RunView::fresh(latest_stored, latest).finished is None,
        RunView::fresh(latest_stored, latest).committed is None,
        !RunView::fresh(latest_stored, latest).ended,
{
}

/// What came of something else than the step of a run changes nothing.
pub proof fn law_run_heeds_its_step<Error>(run: RunView, event: RunEvent<Error>)
    requires
        match event {
            RunEvent::Fetched(_) => !(run.step() is Fetch),
            RunEvent::Executed(_) => !(run.step() is Execute),
            RunEvent::Notified(_) => !(run.step() is Wait),
            RunEvent::LatestStored(_) => !(run.step() is ReadLatest),
            RunEvent::Reported(_) => !(run.step() is Report),
        },
    ensures
        run.after(event) == Ok::<RunView, RunErrorView<Error>>(run),
{
}

/// The contents of an error of a run are its text, or what the step failed with.
pub proof fn law_run_error_contents<Error>(error: RunError<Error>)
    ensures
        match error {
            RunError::BlockNotFound(text) => error@ == RunErrorView::<Error>::BlockNotFound(text@),
            RunError::Failed(cause) => error@ == RunErrorView::Failed(cause),
        },
{
}

} // verus!
